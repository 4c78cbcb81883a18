//! The decisions of the viewer's frame loop: what a window event asks
//! for, when pointer capture toggles, which camera movements the held keys
//! request, and when a pointer sample is to be ignored.

use crate::coord::{coord_is_nan, coord_rank, is_nan, rank};
use vstd::prelude::*;

verus! {

/// A direction in which the camera can be moved.
#[derive(Clone, Copy, Debug, PartialEq, Eq, Structural)]
pub enum CameraMovement {
    Forward,
    Backward,
    Left,
    Right,
}

/// A key that the viewer tells apart.
#[derive(Clone, Copy, Debug, PartialEq, Eq, Structural)]
pub enum Key {
    Escape,
    Tab,
    W,
    A,
    S,
    D,
    Other,
}

/// What happened to a key.
#[derive(Clone, Copy, Debug, PartialEq, Eq, Structural)]
pub enum KeyAction {
    Release,
    Press,
    Repeat,
}

/// An event of the window.
#[derive(Clone, Copy, Debug, PartialEq, Eq, Structural)]
pub enum WindowEvent {
    /// The framebuffer now has this width and height.
    FramebufferSize(i32, i32),
    /// A key was pressed, released or repeated.
    Key(Key, KeyAction),
    /// Any other event.
    Other,
}

/// What the viewer does about a window event.
#[derive(Clone, Copy, Debug, PartialEq, Eq, Structural)]
pub enum EventAction {
    /// Set the viewport to this width and height.
    SetViewport(i32, i32),
    /// Ask the window to close.
    RequestClose,
    /// Do nothing.
    Ignore,
}

/// Whether the pointer is captured by the window.
#[derive(Clone, Copy, Debug, PartialEq, Eq, Structural)]
pub enum CursorMode {
    Disabled,
    Normal,
}

/// The rendering surface as the viewer tracks it.
#[derive(Clone, Copy, Debug, PartialEq, Eq, Structural)]
pub struct Surface {
    pub width: i32,
    pub height: i32,
    pub should_close: bool,
}

/// The keys that the frame loop polls, each `true` while held.
#[derive(Clone, Copy, Debug, PartialEq, Eq, Structural)]
pub struct HeldKeys {
    pub tab: bool,
    pub w: bool,
    pub s: bool,
    pub a: bool,
    pub d: bool,
}

/// What the frame loop remembers from one frame to the next.
#[derive(Clone, Copy, Debug, PartialEq, Eq, Structural)]
pub struct InputState {
    pub tab_pressed_last_frame: bool,
    pub cursor_disabled: bool,
    pub first_mouse: bool,
}

/// What a frame is to do, as decided from the held keys.
#[derive(Clone, Debug)]
pub struct FrameActions {
    /// The cursor mode to set, where pointer capture toggled this frame.
    pub cursor_mode: Option<CursorMode>,
    /// The camera movements to apply, in order.
    pub moves: Vec<CameraMovement>,
    /// Whether this frame's pointer sample turns the camera; where it does
    /// not, the sample only becomes the reference for the next one.
    pub apply_pointer: bool,
}

/// The action that an event asks for: a resize sets the viewport, a press
/// of the escape key asks the window to close, nothing else has an effect.
pub open spec fn action_for(event: WindowEvent) -> EventAction {
    match event {
        WindowEvent::FramebufferSize(width, height) => EventAction::SetViewport(width, height),
        WindowEvent::Key(Key::Escape, KeyAction::Press) => EventAction::RequestClose,
        _ => EventAction::Ignore,
    }
}

impl Surface {
    /// The surface after an action is carried out.
    pub open spec fn after(self, action: EventAction) -> Surface {
        match action {
            EventAction::SetViewport(width, height) => Surface { width, height, ..self },
            EventAction::RequestClose => Surface { should_close: true, ..self },
            EventAction::Ignore => self,
        }
    }

    /// The surface after each event of `events` is handled in turn.
    pub open spec fn after_events(self, events: Seq<WindowEvent>) -> Surface
        decreases events.len(),
    {
        if events.len() == 0 {
            self
        } else {
            self.after_events(events.drop_last()).after(action_for(events.last()))
        }
    }

    /// Returns a surface of the given size that is not asked to close.
    pub fn new(width: i32, height: i32) -> (s: Surface)
        ensures
            s == (Surface { width, height, should_close: false }),
    {
        Surface { width, height, should_close: false }
    }

    /// Handles the pending window events in order: returns the action for
    /// each, and records the resulting size and close request.
    pub fn process_events(&mut self, events: &Vec<WindowEvent>) -> (actions: Vec<EventAction>)
        ensures
            actions@.len() == events@.len(),
            forall|i: int| 0 <= i < events@.len() ==> actions@[i] == action_for(events@[i]),
            *final(self) == old(self).after_events(events@),
    {
        let mut actions: Vec<EventAction> = Vec::new();
        let mut i: usize = 0;
        proof {
            assert(events@.take(0) =~= Seq::<WindowEvent>::empty());
        }
        while i < events.len()
            invariant
                i <= events@.len(),
                actions@.len() == i,
                forall|j: int| 0 <= j < i ==> actions@[j] == action_for(events@[j]),
                *self == old(self).after_events(events@.take(i as int)),
            decreases events@.len() - i,
        {
            let action = event_action(events[i]);
            proof {
                assert(events@.take(i + 1).drop_last() =~= events@.take(i as int));
            }
            match action {
                EventAction::SetViewport(width, height) => {
                    self.width = width;
                    self.height = height;
                },
                EventAction::RequestClose => {
                    self.should_close = true;
                },
                EventAction::Ignore => {},
            }
            actions.push(action);
            i += 1;
        }
        proof {
            assert(events@.take(i as int) =~= events@);
        }
        actions
    }
}

/// Decides what to do about a window event.
pub fn event_action(event: WindowEvent) -> (action: EventAction)
    ensures
        action == action_for(event),
{
    match event {
        WindowEvent::FramebufferSize(width, height) => EventAction::SetViewport(width, height),
        WindowEvent::Key(Key::Escape, KeyAction::Press) => EventAction::RequestClose,
        _ => EventAction::Ignore,
    }
}

/// The camera movements that the held keys request: forward, backward,
/// left and right, in this order, each where its key is held.
pub open spec fn requested_moves(keys: HeldKeys) -> Seq<CameraMovement> {
    (if keys.w {
        seq![CameraMovement::Forward]
    } else {
        Seq::empty()
    }) + (if keys.s {
        seq![CameraMovement::Backward]
    } else {
        Seq::empty()
    }) + (if keys.a {
        seq![CameraMovement::Left]
    } else {
        Seq::empty()
    }) + (if keys.d {
        seq![CameraMovement::Right]
    } else {
        Seq::empty()
    })
}

impl InputState {
    /// The state at the start of a session: the pointer is captured and no
    /// pointer sample has been seen.
    pub open spec fn initial() -> InputState {
        InputState { tab_pressed_last_frame: false, cursor_disabled: true, first_mouse: true }
    }

    /// Whether pointer capture toggles in a frame with these keys: the tab
    /// key is held now and was not held in the frame before.
    pub open spec fn toggles(self, keys: HeldKeys) -> bool {
        keys.tab && !self.tab_pressed_last_frame
    }

    /// The state after a frame with these keys.
    pub open spec fn next(self, keys: HeldKeys) -> InputState {
        InputState {
            tab_pressed_last_frame: keys.tab,
            cursor_disabled: if self.toggles(keys) {
                !self.cursor_disabled
            } else {
                self.cursor_disabled
            },
            first_mouse: false,
        }
    }

    /// Whether the pointer sample of a frame with these keys turns the
    /// camera: not the first sample of the session, and not the first
    /// after a toggle.
    pub open spec fn applies_pointer(self, keys: HeldKeys) -> bool {
        !self.first_mouse && !self.toggles(keys)
    }

    /// The cursor mode that a frame with these keys sets, if any.
    pub open spec fn cursor_change(self, keys: HeldKeys) -> Option<CursorMode> {
        if self.toggles(keys) {
            if self.cursor_disabled {
                Some(CursorMode::Normal)
            } else {
                Some(CursorMode::Disabled)
            }
        } else {
            None
        }
    }

    /// The state after one frame for each element of `frames`.
    pub open spec fn after_frames(self, frames: Seq<HeldKeys>) -> InputState
        decreases frames.len(),
    {
        if frames.len() == 0 {
            self
        } else {
            self.after_frames(frames.drop_last()).next(frames.last())
        }
    }

    /// The number of frames of `frames` in which pointer capture toggles.
    pub open spec fn toggle_count(self, frames: Seq<HeldKeys>) -> nat
        decreases frames.len(),
    {
        if frames.len() == 0 {
            0
        } else {
            let before = self.after_frames(frames.drop_last());
            let earlier = self.toggle_count(frames.drop_last());
            if before.toggles(frames.last()) {
                earlier + 1
            } else {
                earlier
            }
        }
    }

    /// Returns the state at the start of a session.
    pub fn new() -> (s: InputState)
        ensures
            s == InputState::initial(),
    {
        InputState { tab_pressed_last_frame: false, cursor_disabled: true, first_mouse: true }
    }

    /// Advances the state by one frame and returns what the frame is to do.
    pub fn step(&mut self, keys: HeldKeys) -> (actions: FrameActions)
        ensures
            *final(self) == old(self).next(keys),
            actions.cursor_mode == old(self).cursor_change(keys),
            actions.moves@ == requested_moves(keys),
            actions.apply_pointer == old(self).applies_pointer(keys),
    {
        let mut cursor_mode: Option<CursorMode> = None;
        if keys.tab && !self.tab_pressed_last_frame {
            self.cursor_disabled = !self.cursor_disabled;
            cursor_mode = Some(
                if self.cursor_disabled {
                    CursorMode::Disabled
                } else {
                    CursorMode::Normal
                },
            );
            self.first_mouse = true;
        }
        self.tab_pressed_last_frame = keys.tab;
        let mut moves: Vec<CameraMovement> = Vec::new();
        if keys.w {
            moves.push(CameraMovement::Forward);
        }
        if keys.s {
            moves.push(CameraMovement::Backward);
        }
        if keys.a {
            moves.push(CameraMovement::Left);
        }
        if keys.d {
            moves.push(CameraMovement::Right);
        }
        let apply_pointer = !self.first_mouse;
        self.first_mouse = false;
        proof {
            assert(moves@ =~= requested_moves(keys));
        }
        FrameActions { cursor_mode, moves, apply_pointer }
    }
}

/// Holding the tab key for any number of frames, at least one, after a
/// frame in which it was not held toggles pointer capture exactly once:
/// the capture ends up flipped, and the key is remembered as held.
pub proof fn lemma_held_key_toggles_once(start: InputState, frames: Seq<HeldKeys>)
    requires
        !start.tab_pressed_last_frame,
        frames.len() >= 1,
        forall|i: int| 0 <= i < frames.len() ==> frames[i].tab,
    ensures
        start.toggle_count(frames) == 1,
        start.after_frames(frames).cursor_disabled == !start.cursor_disabled,
        start.after_frames(frames).tab_pressed_last_frame,
    decreases frames.len(),
{
    let shorter = frames.drop_last();
    if shorter.len() >= 1 {
        lemma_held_key_toggles_once(start, shorter);
    } else {
        assert(start.after_frames(shorter) == start);
        assert(start.toggle_count(shorter) == 0);
    }
}

/// While the tab key is not held, pointer capture never toggles.
pub proof fn lemma_released_key_never_toggles(start: InputState, frames: Seq<HeldKeys>)
    requires
        forall|i: int| 0 <= i < frames.len() ==> !frames[i].tab,
    ensures
        start.toggle_count(frames) == 0,
        start.after_frames(frames).cursor_disabled == start.cursor_disabled,
    decreases frames.len(),
{
    if frames.len() > 0 {
        lemma_released_key_never_toggles(start, frames.drop_last());
    }
}

/// The bit pattern of 89, the steepest upward pitch in degrees.
pub const PITCH_MAX_BITS: u32 = 0x42b2_0000;

/// The bit pattern of -89, the steepest downward pitch in degrees.
pub const PITCH_MIN_BITS: u32 = 0xc2b2_0000;

/// The pitch that the camera takes for a requested pitch: where pitch is
/// constrained, a pitch above 89 degrees becomes 89 and one below -89
/// becomes -89; any other pitch, and a NaN, stays as it is.
pub open spec fn constrained_pitch(pitch: u32, constrain: bool) -> u32 {
    if !constrain || is_nan(pitch) {
        pitch
    } else if rank(pitch) > rank(PITCH_MAX_BITS) {
        PITCH_MAX_BITS
    } else if rank(pitch) < rank(PITCH_MIN_BITS) {
        PITCH_MIN_BITS
    } else {
        pitch
    }
}

/// Constrains a requested pitch, given and returned as a bit pattern. A
/// constrained pitch that is a number lies between -89 and 89 degrees.
pub fn clamp_pitch(pitch: u32, constrain: bool) -> (r: u32)
    ensures
        r == constrained_pitch(pitch, constrain),
        constrain && !is_nan(pitch) ==> rank(PITCH_MIN_BITS) <= rank(r) <= rank(PITCH_MAX_BITS),
        is_nan(r) == is_nan(pitch),
{
    if !constrain || coord_is_nan(pitch) {
        pitch
    } else if coord_rank(pitch) > coord_rank(PITCH_MAX_BITS) {
        PITCH_MAX_BITS
    } else if coord_rank(pitch) < coord_rank(PITCH_MIN_BITS) {
        PITCH_MIN_BITS
    } else {
        pitch
    }
}

} // verus!

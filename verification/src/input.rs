//! The state of keyboard and mouse, and the camera moves that follow from
//! it.

use vstd::prelude::*;

verus! {

/// The keys that move the camera.
#[derive(Clone, Copy, Debug, PartialEq, Eq, Structural)]
pub enum KeyboardKey {
    Q,
    E,
    W,
    A,
    S,
    D,
}

/// What the mouse or the keyboard has done since the last update.
#[derive(Clone, Copy, Debug, PartialEq, Eq, Structural)]
pub enum InputEvent {
    /// The mouse has moved by `xrel` to the right and `yrel` downwards.
    MouseMotion { xrel: i32, yrel: i32 },
    /// A key has gone down or come up.
    KeyChange(KeyboardKey),
}

/// Which of the keys are held down.
#[derive(Clone, Copy, Debug, PartialEq, Eq, Structural)]
pub struct KeyboardState {
    pub q: bool,
    pub e: bool,
    pub w: bool,
    pub a: bool,
    pub s: bool,
    pub d: bool,
}

/// A move that the camera is asked to make.
#[derive(Clone, Copy, Debug, PartialEq, Eq, Structural)]
pub enum CameraMove {
    /// Turn by so many steps about each of the camera's three axes.
    Rotate { yaw: i32, pitch: i32, roll: i32 },
    /// Go `fb` steps forward and `lr` steps to the side.
    Translate { fb: i32, lr: i32 },
}

/// What the window system reports, as far as this program reads it.
#[derive(Clone, Copy, Debug, PartialEq, Eq, Structural)]
pub enum WindowEvent {
    /// The program is asked to end at once.
    Quit,
    /// The window is being closed.
    Close,
    /// A mouse button has gone down.
    MouseButtonDown,
    /// A mouse button has come up.
    MouseButtonUp,
    /// The mouse has moved.
    MouseMotion { xrel: i32, yrel: i32 },
    /// A key has gone down, or is repeating while held; `key` is `None` for
    /// a key that moves nothing.
    KeyDown { key: Option<KeyboardKey>, repeat: bool },
    /// A key has come up; `key` is `None` for a key that moves nothing.
    KeyUp { key: Option<KeyboardKey> },
    /// Anything else.
    Other,
}

/// What the event loop does after an event.
#[derive(Clone, Copy, Debug, PartialEq, Eq, Structural)]
pub enum Poll {
    /// Take the next event.
    Continue,
    /// Leave the events that are left and stop running.
    Stop,
    /// End the program at once.
    Abort,
}

/// `keys` after `key` has gone down or come up.
pub open spec fn toggled(keys: KeyboardState, key: KeyboardKey) -> KeyboardState {
    match key {
        KeyboardKey::Q => KeyboardState { q: !keys.q, ..keys },
        KeyboardKey::E => KeyboardState { e: !keys.e, ..keys },
        KeyboardKey::W => KeyboardState { w: !keys.w, ..keys },
        KeyboardKey::A => KeyboardState { a: !keys.a, ..keys },
        KeyboardKey::S => KeyboardState { s: !keys.s, ..keys },
        KeyboardKey::D => KeyboardState { d: !keys.d, ..keys },
    }
}

/// `keys` after all of `events`, in order.
pub open spec fn keys_after(keys: KeyboardState, events: Seq<InputEvent>) -> KeyboardState
    decreases events.len(),
{
    if events.len() == 0 {
        keys
    } else {
        let before = keys_after(keys, events.drop_last());
        match events.last() {
            InputEvent::KeyChange(key) => toggled(before, key),
            InputEvent::MouseMotion { .. } => before,
        }
    }
}

/// The turns that a dragging mouse asks for: one for each motion among
/// `events`, in order, by `xrel` about the first axis and by `yrel`,
/// reversed, about the second.
pub open spec fn drag_moves(events: Seq<InputEvent>) -> Seq<CameraMove>
    decreases events.len(),
{
    if events.len() == 0 {
        Seq::empty()
    } else {
        let before = drag_moves(events.drop_last());
        match events.last() {
            InputEvent::KeyChange(_) => before,
            InputEvent::MouseMotion { xrel, yrel } => before.push(
                CameraMove::Rotate { yaw: xrel, pitch: (-yrel) as i32, roll: 0 },
            ),
        }
    }
}

/// The moves that the keys held down ask for. Of two keys that work against
/// each other, one alone counts: `Q` and `E` roll the camera, `W` and `S`
/// move it forward and back, `A` and `D` sideways.
pub open spec fn key_moves(keys: KeyboardState) -> Seq<CameraMove> {
    let roll: Seq<CameraMove> = if keys.q != keys.e {
        seq![CameraMove::Rotate { yaw: 0, pitch: 0, roll: if keys.q { 3i32 } else { -3i32 } }]
    } else {
        Seq::empty()
    };
    let advance: Seq<CameraMove> = if keys.w != keys.s {
        seq![CameraMove::Translate { fb: if keys.w { 1i32 } else { -1i32 }, lr: 0 }]
    } else {
        Seq::empty()
    };
    let strafe: Seq<CameraMove> = if keys.a != keys.d {
        seq![CameraMove::Translate { fb: 0, lr: if keys.a { -1i32 } else { 1i32 } }]
    } else {
        Seq::empty()
    };
    roll + advance + strafe
}

/// Whether the vertical motion of every mouse motion among `events` can be
/// reversed.
pub open spec fn reversible(events: Seq<InputEvent>) -> bool {
    forall|i: int|
        0 <= i < events.len() ==> ((#[trigger] events[i]) matches InputEvent::MouseMotion {
            yrel,
            ..
        } ==> yrel > i32::MIN)
}

impl KeyboardState {
    /// No key is held down.
    pub fn new() -> (keys: KeyboardState)
        ensures
            keys == (KeyboardState { q: false, e: false, w: false, a: false, s: false, d: false }),
    {
        KeyboardState { q: false, e: false, w: false, a: false, s: false, d: false }
    }

    /// Takes note that `key` has gone down or come up.
    pub fn toggle(&mut self, key: KeyboardKey)
        ensures
            *final(self) == toggled(*old(self), key),
    {
        match key {
            KeyboardKey::Q => self.q = !self.q,
            KeyboardKey::E => self.e = !self.e,
            KeyboardKey::W => self.w = !self.w,
            KeyboardKey::A => self.a = !self.a,
            KeyboardKey::S => self.s = !self.s,
            KeyboardKey::D => self.d = !self.d,
        }
    }
}

/// The events that wait for the next update, and what is held down.
pub struct InputState {
    pub events: Vec<InputEvent>,
    pub drag_camera: bool,
    pub keyboard: KeyboardState,
}

impl InputState {
    /// Nothing waits, nothing is held down.
    pub fn new() -> (state: InputState)
        ensures
            state.events@.len() == 0,
            !state.drag_camera,
            state.keyboard == (KeyboardState {
                q: false,
                e: false,
                w: false,
                a: false,
                s: false,
                d: false,
            }),
    {
        InputState { events: Vec::new(), drag_camera: false, keyboard: KeyboardState::new() }
    }

    /// A mouse button has gone down or come up: the mouse starts or stops
    /// dragging the camera.
    pub fn toggle_drag_camera(&mut self)
        ensures
            final(self).drag_camera == !old(self).drag_camera,
            final(self).events == old(self).events,
            final(self).keyboard == old(self).keyboard,
    {
        self.drag_camera = !self.drag_camera;
    }

    /// Works off the events that wait and returns the moves that the camera
    /// is to make, in order: first the turns of a dragging mouse, then what
    /// the keys held down ask for.
    pub fn update(&mut self) -> (moves: Vec<CameraMove>)
        requires
            old(self).drag_camera ==> reversible(old(self).events@),
        ensures
            final(self).events@.len() == 0,
            final(self).drag_camera == old(self).drag_camera,
            final(self).keyboard == keys_after(old(self).keyboard, old(self).events@),
            moves@ == if old(self).drag_camera {
                drag_moves(old(self).events@) + key_moves(final(self).keyboard)
            } else {
                key_moves(final(self).keyboard)
            },
    {
        let mut moves: Vec<CameraMove> = Vec::new();
        let mut i: usize = 0;
        while i < self.events.len()
            invariant
                0 <= i <= self.events.len(),
                self.events == old(self).events,
                self.drag_camera == old(self).drag_camera,
                self.drag_camera ==> reversible(self.events@),
                self.keyboard == keys_after(old(self).keyboard, self.events@.take(i as int)),
                moves@ == if self.drag_camera {
                    drag_moves(self.events@.take(i as int))
                } else {
                    Seq::empty()
                },
            decreases self.events.len() - i,
        {
            proof {
                assert(self.events@.take(i + 1).drop_last() == self.events@.take(i as int));
            }
            match self.events[i] {
                InputEvent::MouseMotion { xrel, yrel } => {
                    if self.drag_camera {
                        moves.push(CameraMove::Rotate { yaw: xrel, pitch: -yrel, roll: 0 });
                    }
                },
                InputEvent::KeyChange(key) => {
                    self.keyboard.toggle(key);
                },
            }
            i = i + 1;
        }
        assert(self.events@.take(i as int) == self.events@);
        self.events.clear();
        let ghost dragged = moves@;

        if self.keyboard.q != self.keyboard.e {
            let roll: i32 = if self.keyboard.q {
                3
            } else {
                -3
            };
            moves.push(CameraMove::Rotate { yaw: 0, pitch: 0, roll });
        }
        if self.keyboard.w != self.keyboard.s {
            let fb: i32 = if self.keyboard.w {
                1
            } else {
                -1
            };
            moves.push(CameraMove::Translate { fb, lr: 0 });
        }
        if self.keyboard.a != self.keyboard.d {
            let lr: i32 = if self.keyboard.a {
                -1
            } else {
                1
            };
            moves.push(CameraMove::Translate { fb: 0, lr });
        }
        assert(moves@ == dragged + key_moves(self.keyboard));
        moves
    }

    /// Takes in one event of the window system and tells the event loop how
    /// to go on. Mouse buttons start and stop the dragging of the camera;
    /// motions of the mouse and changes of the six keys are kept for the
    /// next update, but not the repeats of a key that is held.
    pub fn handle_event(&mut self, event: WindowEvent) -> (next: Poll)
        ensures
            final(self).keyboard == old(self).keyboard,
            final(self).drag_camera == match event {
                WindowEvent::MouseButtonDown | WindowEvent::MouseButtonUp => !old(self).drag_camera,
                _ => old(self).drag_camera,
            },
            final(self).events@ == match event {
                WindowEvent::MouseMotion { xrel, yrel } => old(self).events@.push(
                    InputEvent::MouseMotion { xrel, yrel },
                ),
                WindowEvent::KeyDown { key: Some(key), repeat: false } => old(self).events@.push(
                    InputEvent::KeyChange(key),
                ),
                WindowEvent::KeyUp { key: Some(key) } => old(self).events@.push(
                    InputEvent::KeyChange(key),
                ),
                _ => old(self).events@,
            },
            next == match event {
                WindowEvent::Quit => Poll::Abort,
                WindowEvent::Close => Poll::Stop,
                _ => Poll::Continue,
            },
    {
        match event {
            WindowEvent::Quit => Poll::Abort,
            WindowEvent::Close => Poll::Stop,
            WindowEvent::MouseButtonDown | WindowEvent::MouseButtonUp => {
                self.toggle_drag_camera();
                Poll::Continue
            },
            WindowEvent::MouseMotion { xrel, yrel } => {
                self.events.push(InputEvent::MouseMotion { xrel, yrel });
                Poll::Continue
            },
            WindowEvent::KeyDown { key, repeat } => {
                if !repeat {
                    if let Some(key) = key {
                        self.events.push(InputEvent::KeyChange(key));
                    }
                }
                Poll::Continue
            },
            WindowEvent::KeyUp { key } => {
                if let Some(key) = key {
                    self.events.push(InputEvent::KeyChange(key));
                }
                Poll::Continue
            },
            WindowEvent::Other => Poll::Continue,
        }
    }
}

} // verus!

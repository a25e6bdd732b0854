//! The decisions of the window shell: what to do about each event of the
//! window, and about a frame that could not be drawn.
//!
//! The shell itself (the window, the surface, the device) lives outside this
//! library. It reports what happened as an `Event`, and carries out the
//! `Command` that it gets back.

use vstd::prelude::*;

verus! {

/// A key of the keyboard, as far as the shell tells keys apart.
#[derive(Clone, Copy, Debug, PartialEq, Eq, Structural)]
pub enum Key {
    Escape,
    Other,
}

/// Something that happened to the window.
#[derive(Clone, Copy, Debug, PartialEq, Eq, Structural)]
pub enum Event {
    CloseRequested,
    Resized { width: u32, height: u32 },
    RedrawRequested,
    KeyboardInput { key: Key, is_pressed: bool },
    Other,
}

/// What the shell is to do.
#[derive(Clone, Copy, Debug, PartialEq, Eq, Structural)]
pub enum Command {
    /// Nothing.
    Nothing,
    /// Leave the event loop.
    Exit,
    /// Configure the surface for this size.
    Configure { width: u32, height: u32 },
    /// Advance the simulation and ask for the next frame; draw this one
    /// only if `draw` is set.
    Frame { draw: bool },
}

/// Why a frame could not be drawn.
#[derive(Clone, Copy, Debug, PartialEq, Eq, Structural)]
pub enum SurfaceFault {
    Timeout,
    Outdated,
    Lost,
    OutOfMemory,
    Other,
}

/// What the shell is to do about a frame that could not be drawn.
#[derive(Clone, Copy, Debug, PartialEq, Eq, Structural)]
pub enum Recovery {
    /// Configure the surface for this size, if the size has an area.
    Reconfigure { width: u32, height: u32 },
    /// Report the fault and go on.
    Report,
}

/// What the shell knows of its surface.
#[derive(Clone, Copy, Debug, PartialEq, Eq, Structural)]
pub struct State {
    pub width: u32,
    pub height: u32,
    pub is_surface_configured: bool,
}

/// Whether a surface of this size can be configured: both sides must be
/// positive.
pub open spec fn has_area(width: u32, height: u32) -> bool {
    width > 0 && height > 0
}

impl State {
    /// The state after a resize to `width` by `height`.
    pub open spec fn resized(self, width: u32, height: u32) -> State {
        if has_area(width, height) {
            State { width, height, is_surface_configured: true }
        } else {
            self
        }
    }

    /// What the state says to do about `event`.
    pub open spec fn command_for(self, event: Event) -> Command {
        match event {
            Event::CloseRequested => Command::Exit,
            Event::Resized { width, height } => if has_area(width, height) {
                Command::Configure { width, height }
            } else {
                Command::Nothing
            },
            Event::RedrawRequested => Command::Frame { draw: self.is_surface_configured },
            Event::KeyboardInput { key, is_pressed } => if key is Escape && is_pressed {
                Command::Exit
            } else {
                Command::Nothing
            },
            Event::Other => Command::Nothing,
        }
    }

    /// The state of a surface of the given size that is not configured yet.
    pub fn new(width: u32, height: u32) -> (r: State)
        ensures
            r == (State { width, height, is_surface_configured: false }),
    {
        State { width, height, is_surface_configured: false }
    }

    /// Takes note of a new size. Returns whether the surface is to be
    /// configured for it: a size without an area is ignored.
    pub fn resize(&mut self, width: u32, height: u32) -> (configure: bool)
        ensures
            configure == has_area(width, height),
            *final(self) == old(self).resized(width, height),
    {
        if width > 0 && height > 0 {
            self.width = width;
            self.height = height;
            self.is_surface_configured = true;
            true
        } else {
            false
        }
    }

    /// Whether a frame is to be drawn: only on a configured surface.
    pub fn render(&self) -> (draw: bool)
        ensures
            draw == self.is_surface_configured,
    {
        self.is_surface_configured
    }

    /// Whether this key event ends the program: pressing Escape does.
    pub fn handle_key(&self, key: Key, is_pressed: bool) -> (exit: bool)
        ensures
            exit == (key is Escape && is_pressed),
    {
        match (key, is_pressed) {
            (Key::Escape, true) => true,
            _ => false,
        }
    }
}

/// What to do about a frame that could not be drawn: a surface that is lost
/// or outdated is configured anew for the size that the window has now;
/// any other fault is reported.
pub fn recover(fault: SurfaceFault, window_width: u32, window_height: u32) -> (r: Recovery)
    ensures
        r == (if fault is Lost || fault is Outdated {
            Recovery::Reconfigure { width: window_width, height: window_height }
        } else {
            Recovery::Report
        }),
{
    match fault {
        SurfaceFault::Lost => Recovery::Reconfigure { width: window_width, height: window_height },
        SurfaceFault::Outdated => Recovery::Reconfigure {
            width: window_width,
            height: window_height,
        },
        _ => Recovery::Report,
    }
}

/// The first position in `is_srgb` that holds `true`, if there is one.
pub open spec fn first_set(is_srgb: Seq<bool>) -> Option<int>
    decreases is_srgb.len(),
{
    if is_srgb.len() == 0 {
        None
    } else if is_srgb[0] {
        Some(0)
    } else {
        match first_set(is_srgb.drop_first()) {
            Some(i) => Some(i + 1),
            None => None,
        }
    }
}

/// `first_set` returns the least position that holds `true`.
pub proof fn lemma_first_set(is_srgb: Seq<bool>)
    ensures
        match first_set(is_srgb) {
            Some(i) => 0 <= i < is_srgb.len() && is_srgb[i] && forall|k: int|
                0 <= k < i ==> !is_srgb[k],
            None => forall|k: int| 0 <= k < is_srgb.len() ==> !is_srgb[k],
        },
    decreases is_srgb.len(),
{
    if is_srgb.len() > 0 && !is_srgb[0] {
        let rest = is_srgb.drop_first();
        lemma_first_set(rest);
        match first_set(rest) {
            Some(i) => {
                assert(rest[i] == is_srgb[i + 1]);
                assert forall|k: int| 0 <= k < i + 1 implies !is_srgb[k] by {
                    if k > 0 {
                        assert(rest[k - 1] == is_srgb[k]);
                    }
                }
            },
            None => {
                assert forall|k: int| 0 <= k < is_srgb.len() implies !is_srgb[k] by {
                    if k > 0 {
                        assert(rest[k - 1] == is_srgb[k]);
                    }
                }
            },
        }
    }
}

/// The surface format to use, as a position in the list of formats that
/// the surface supports: the first that is sRGB, or the first of all where
/// none is. `is_srgb` says of each format whether it is sRGB.
pub fn choose_format(is_srgb: &Vec<bool>) -> (r: usize)
    requires
        is_srgb@.len() > 0,
    ensures
        r < is_srgb@.len(),
        r == (match first_set(is_srgb@) {
            Some(i) => i,
            None => 0,
        }),
{
    let mut i: usize = 0;
    while i < is_srgb.len()
        invariant
            i <= is_srgb@.len(),
            forall|k: int| 0 <= k < i ==> !is_srgb@[k],
        decreases is_srgb@.len() - i,
    {
        if is_srgb[i] {
            proof {
                lemma_first_set(is_srgb@);
            }
            return i;
        }
        i += 1;
    }
    proof {
        lemma_first_set(is_srgb@);
    }
    0
}

/// The shell's side of the program: nothing before the window exists, the
/// state of the surface afterwards.
#[derive(Clone, Copy, Debug, PartialEq, Eq, Structural)]
pub struct App {
    pub state: Option<State>,
}

impl App {
    /// The state after `event`.
    pub open spec fn after(self, event: Event) -> App {
        match (self.state, event) {
            (Some(state), Event::Resized { width, height }) => App {
                state: Some(state.resized(width, height)),
            },
            _ => self,
        }
    }

    /// What is to be done about `event`.
    pub open spec fn command_for(self, event: Event) -> Command {
        match self.state {
            Some(state) => state.command_for(event),
            None => Command::Nothing,
        }
    }

    /// The shell before its window exists.
    pub fn new() -> (r: App)
        ensures
            r.state is None,
    {
        App { state: None }
    }

    /// Takes note that the window exists, with a surface of the given size
    /// that is not configured yet.
    pub fn resumed(&mut self, width: u32, height: u32)
        ensures
            final(self).state == Some(State { width, height, is_surface_configured: false }),
    {
        self.state = Some(State::new(width, height));
    }

    /// Takes note of an event of the window and says what to do about it.
    /// Before the window exists every event is ignored.
    pub fn window_event(&mut self, event: Event) -> (r: Command)
        ensures
            r == old(self).command_for(event),
            *final(self) == old(self).after(event),
    {
        let mut state: State = match self.state {
            Some(state) => state,
            None => {
                return Command::Nothing;
            },
        };
        match event {
            Event::CloseRequested => Command::Exit,
            Event::Resized { width, height } => {
                let configure: bool = state.resize(width, height);
                self.state = Some(state);
                if configure {
                    Command::Configure { width, height }
                } else {
                    Command::Nothing
                }
            },
            Event::RedrawRequested => Command::Frame { draw: state.render() },
            Event::KeyboardInput { key, is_pressed } => {
                if state.handle_key(key, is_pressed) {
                    Command::Exit
                } else {
                    Command::Nothing
                }
            },
            Event::Other => Command::Nothing,
        }
    }
}

} // verus!

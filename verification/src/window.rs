//! Window state as the browser surface sees it: the saved style around
//! full-screen toggles, and the state word sent with `win-state-changed`.
use vstd::prelude::*;

verus! {

/// The window-state flags of the state word.
pub const WINDOW_STATE_MINIMIZED: u32 = 0x01;

pub const WINDOW_STATE_MAXIMIZED: u32 = 0x02;

pub const WINDOW_STATE_FULL_SCREEN: u32 = 0x04;

pub const WINDOW_STATE_ACTIVE: u32 = 0x08;

/// The window style saved while full screen is on, so leaving full screen
/// restores it.
pub struct WindowStyle {
    pub full_screen: bool,
    pub pos: (i32, i32),
    pub size: (i32, i32),
    pub style: i32,
    pub ex_style: i32,
}

/// The state word for the given observations: one bit per flag.
pub open spec fn spec_window_state(
    minimized: bool,
    maximized: bool,
    active: bool,
    full_screen: bool,
) -> int {
    (if minimized {
        1int
    } else {
        0int
    }) + (if maximized {
        2int
    } else {
        0int
    }) + (if active {
        8int
    } else {
        0int
    }) + (if full_screen {
        4int
    } else {
        0int
    })
}

/// The smaller monitor side, scaled to seventy percent.
pub open spec fn spec_small_side(monitor_w: int, monitor_h: int) -> int {
    (if monitor_w <= monitor_h {
        monitor_w
    } else {
        monitor_h
    }) * 70 / 100
}

/// The centered width: sixteen-ninths of the small side, at least the
/// minimum.
pub open spec fn spec_center_w(monitor_w: int, monitor_h: int, min_width: int) -> int {
    if spec_small_side(monitor_w, monitor_h) * 16 / 9 >= min_width {
        spec_small_side(monitor_w, monitor_h) * 16 / 9
    } else {
        min_width
    }
}

/// Half of a difference, rounded toward zero, as window centering computes
/// it.
pub open spec fn spec_half_toward_zero(d: int) -> int {
    if d >= 0 {
        d / 2
    } else {
        -((-d) / 2)
    }
}

/// The centered height: the small side, at least the minimum.
pub open spec fn spec_center_h(monitor_w: int, monitor_h: int, min_height: int) -> int {
    if spec_small_side(monitor_w, monitor_h) >= min_height {
        spec_small_side(monitor_w, monitor_h)
    } else {
        min_height
    }
}

impl WindowStyle {
    /// The state word sent to the browser surface, from what the platform
    /// reports about the window and this style's full-screen flag.
    pub fn get_window_state(&self, minimized: bool, maximized: bool, active: bool) -> (r: u32)
        ensures
            r == spec_window_state(minimized, maximized, active, self.full_screen),
    {
        let mut state: u32 = 0;
        if minimized {
            state = state + WINDOW_STATE_MINIMIZED;
        }
        if maximized {
            state = state + WINDOW_STATE_MAXIMIZED;
        }
        if active {
            state = state + WINDOW_STATE_ACTIVE;
        }
        if self.full_screen {
            state = state + WINDOW_STATE_FULL_SCREEN;
        }
        state
    }

    /// Saves the centered geometry for a monitor: a 16:9 window on seventy
    /// percent of the smaller monitor side, never below the given minimum,
    /// centered on the monitor.
    pub fn center_window(&mut self, monitor_w: i32, monitor_h: i32, min_width: i32, min_height: i32)
        requires
            0 < monitor_w <= 0x10000,
            0 < monitor_h <= 0x10000,
            0 < min_width <= 0x10000,
            0 < min_height <= 0x10000,
        ensures
            final(self).size.0 == spec_center_w(monitor_w as int, monitor_h as int, min_width as int),
            final(self).size.1 == spec_center_h(
                monitor_w as int,
                monitor_h as int,
                min_height as int,
            ),
            final(self).pos.0 == spec_half_toward_zero(monitor_w - final(self).size.0),
            final(self).pos.1 == spec_half_toward_zero(monitor_h - final(self).size.1),
            final(self).full_screen == old(self).full_screen,
            final(self).style == old(self).style,
            final(self).ex_style == old(self).ex_style,
    {
        let small_side = (if monitor_w <= monitor_h {
            monitor_w
        } else {
            monitor_h
        }) * 70 / 100;
        let w = if small_side * 16 / 9 >= min_width {
            small_side * 16 / 9
        } else {
            min_width
        };
        let h = if small_side >= min_height {
            small_side
        } else {
            min_height
        };
        self.size = (w, h);
        let dx = monitor_w - w;
        let dy = monitor_h - h;
        let px = if dx >= 0 {
            dx / 2
        } else {
            -((-dx) / 2)
        };
        let py = if dy >= 0 {
            dy / 2
        } else {
            -((-dy) / 2)
        };
        self.pos = (px, py);
    }
}

} // verus!

//! The viewport and cursor controller: keeps the cursor line inside the
//! visible window, scrolling instead of clamping the cursor.

use vstd::prelude::*;

use crate::nav::{fsal_landing, has_selectable, navigate_spec, Direction};
use crate::tree::SyntaxTree;
use crate::ui::{delta_int, AppEvent, Delta};

verus! {

/// The dimensions of a loaded document: display lines and widest line.
#[derive(Clone, Copy, PartialEq, Eq, Structural, Debug)]
pub struct FileDims {
    pub line_count: usize,
    pub max_width: usize,
}

/// Cursor and scroll state over an optional loaded document. `cursor_pos` is
/// `(line, selectable index on the line)`; `viewport` is `(height, width)` in
/// visible rows and columns.
#[derive(Clone, Copy, Debug)]
pub struct Viewport {
    pub file: Option<FileDims>,
    pub cursor_pos: (usize, usize),
    pub vertical_scroll: usize,
    pub horizontal_scroll: usize,
    pub viewport: (u16, u16),
}

/// An integer clamped into the unsigned machine range.
pub open spec fn sat_usize(t: int) -> int {
    if t < 0 {
        0
    } else if t > usize::MAX {
        usize::MAX as int
    } else {
        t
    }
}

/// Where a vertical step asks the cursor to go, before clamping: a visible
/// cursor moves by the step; an off-screen cursor re-anchors to the top (when
/// moving down into the window) or bottom (when moving up into it).
pub open spec fn target_line(v: Viewport, dy: Delta) -> int {
    if v.spec_cursor_visible() {
        match dy {
            Delta::Inc(n) => sat_usize(v.cursor_pos.0 + n),
            Delta::Dec(n) => sat_usize(v.cursor_pos.0 - n),
            Delta::Zero => v.cursor_pos.0 as int,
        }
    } else {
        match dy {
            Delta::Inc(_) => v.vertical_scroll as int,
            Delta::Dec(_) => sat_usize(sat_usize(v.vertical_scroll + v.viewport.0) - 1),
            Delta::Zero => v.cursor_pos.0 as int,
        }
    }
}

/// A line clamped into the document: the last line when it ran past the end,
/// line zero for an empty document.
pub open spec fn clamp_line(t: int, line_count: int) -> int {
    if t >= line_count {
        if line_count == 0 {
            0
        } else {
            line_count - 1
        }
    } else {
        t
    }
}

/// Where the window scrolls so that line `cy` is visible: up to `cy` when the
/// cursor left above, down so `cy` is the last visible line when it left
/// below, otherwise unmoved.
pub open spec fn scrolled_to(vs: int, cy: int, h: int) -> int {
    if cy < vs {
        cy
    } else if cy >= sat_usize(vs + h) {
        sat_usize(sat_usize(cy - h) + 1)
    } else {
        vs
    }
}

/// The whole state after the window follows the cursor to `line`.
pub open spec fn followed(v: Viewport, line: int) -> Viewport {
    Viewport {
        cursor_pos: (line as usize, v.cursor_pos.1),
        vertical_scroll: scrolled_to(v.vertical_scroll as int, line, v.viewport.0 as int) as usize,
        ..v
    }
}

/// The whole state after one vertical cursor step: target, clamp into the
/// document, then follow. Without a document nothing changes.
pub open spec fn move_cursor_spec(v: Viewport, dy: Delta) -> Viewport {
    match v.file {
        None => v,
        Some(d) => followed(v, clamp_line(target_line(v, dy), d.line_count as int)),
    }
}

/// The whole state after a signed scroll in each axis, clamped into the
/// document (zero-sized documents clamp to offset zero).
pub open spec fn scroll_spec(v: Viewport, dx: int, dy: int) -> Viewport {
    let w = match v.file {
        Some(d) => d.max_width as int,
        None => 0int,
    };
    let lc = match v.file {
        Some(d) => d.line_count as int,
        None => 0int,
    };
    Viewport {
        horizontal_scroll: clamp_line(sat_usize(v.horizontal_scroll + dx), w) as usize,
        vertical_scroll: clamp_line(sat_usize(v.vertical_scroll + dy), lc) as usize,
        ..v
    }
}

impl Viewport {
    /// A controller with nothing loaded.
    pub fn new() -> (r: Viewport)
        ensures
            r.file is None,
            r.cursor_pos == (0usize, 0usize),
            r.vertical_scroll == 0,
            r.horizontal_scroll == 0,
            r.viewport == (0u16, 0u16),
    {
        Viewport {
            file: None,
            cursor_pos: (0, 0),
            vertical_scroll: 0,
            horizontal_scroll: 0,
            viewport: (0, 0),
        }
    }

    /// Whether the cursor's line lies inside the visible window.
    pub open spec fn spec_cursor_visible(self) -> bool {
        self.cursor_pos.0 >= self.vertical_scroll && (self.cursor_pos.0 as int) < sat_usize(
            self.vertical_scroll + self.viewport.0,
        )
    }

    /// Executable form of the visibility test.
    pub fn cursor_visible(&self) -> (r: bool)
        ensures
            r == self.spec_cursor_visible(),
    {
        let (y, _) = self.cursor_pos;
        y >= self.vertical_scroll && y < self.vertical_scroll.saturating_add(
            self.viewport.0 as usize,
        )
    }

    /// Replaces the loaded document's dimensions; cursor and scroll state are
    /// left for the caller to reset as its flow requires.
    pub fn set_file(&mut self, dims: Option<FileDims>)
        ensures
            *final(self) == (Viewport { file: dims, ..*old(self) }),
    {
        self.file = dims;
    }

    /// Sets either scroll offset directly.
    pub fn scroll_to(&mut self, x: Option<usize>, y: Option<usize>)
        ensures
            final(self).horizontal_scroll == (match x {
                Some(v) => v,
                None => old(self).horizontal_scroll,
            }),
            final(self).vertical_scroll == (match y {
                Some(v) => v,
                None => old(self).vertical_scroll,
            }),
            final(self).file == old(self).file,
            final(self).cursor_pos == old(self).cursor_pos,
            final(self).viewport == old(self).viewport,
    {
        match x {
            Some(v) => {
                self.horizontal_scroll = v;
            },
            None => {},
        }
        match y {
            Some(v) => {
                self.vertical_scroll = v;
            },
            None => {},
        }
    }

    /// Moves the cursor's line to `line` and scrolls the window after it:
    /// up to the line when it left above, down so it is the last visible
    /// line when it left below. With a window at least one row tall the line
    /// is visible afterwards.
    pub fn follow_line(&mut self, line: usize)
        ensures
            *final(self) == followed(*old(self), line as int),
            old(self).viewport.0 >= 1 ==> (final(self).vertical_scroll
                <= final(self).cursor_pos.0 && final(self).cursor_pos.0
                < final(self).vertical_scroll + final(self).viewport.0),
    {
        if line < self.vertical_scroll {
            self.scroll_to(None, Some(line));
        } else if line >= self.vertical_scroll.saturating_add(self.viewport.0 as usize) {
            self.scroll_to(
                None,
                Some(line.saturating_sub(self.viewport.0 as usize).saturating_add(1)),
            );
        }
        self.cursor_pos.0 = line;
    }

    /// Moves the cursor one vertical step, clamps it to the document, and
    /// scrolls the window after it. With a document loaded and a window at
    /// least one row tall, the cursor line is visible afterwards.
    pub fn move_cursor(&mut self, dy: &Delta)
        ensures
            *final(self) == move_cursor_spec(*old(self), *dy),
            old(self).file is Some && old(self).viewport.0 >= 1 ==> (final(self).vertical_scroll
                <= final(self).cursor_pos.0 && final(self).cursor_pos.0
                < final(self).vertical_scroll + final(self).viewport.0),
    {
        let line_count: usize = match &self.file {
            Some(d) => d.line_count,
            None => {
                return ;
            },
        };
        let current_pos = self.cursor_pos.0;
        let visible = self.cursor_visible();
        let mut cursor_y: usize = match (visible, dy) {
            (true, Delta::Inc(n)) => current_pos.saturating_add(*n),
            (true, Delta::Dec(n)) => current_pos.saturating_sub(*n),
            (false, Delta::Inc(_)) => self.vertical_scroll,
            (false, Delta::Dec(_)) => self.vertical_scroll.saturating_add(
                self.viewport.0 as usize,
            ).saturating_sub(1),
            _ => current_pos,
        };
        if cursor_y >= line_count {
            cursor_y = if line_count == 0 {
                0
            } else {
                line_count - 1
            };
        }
        self.follow_line(cursor_y);
    }

    /// Scrolls by a signed amount in each axis, clamped into the document.
    pub fn scroll(&mut self, dx: isize, dy: isize)
        ensures
            *final(self) == scroll_spec(*old(self), dx as int, dy as int),
    {
        let mut vertical_scroll = add_signed_saturating(self.vertical_scroll, dy);
        let mut horizontal_scroll = add_signed_saturating(self.horizontal_scroll, dx);
        let (file_width, file_length): (usize, usize) = match &self.file {
            Some(d) => (d.max_width, d.line_count),
            None => (0, 0),
        };
        if horizontal_scroll >= file_width {
            horizontal_scroll = if file_width == 0 {
                0
            } else {
                file_width - 1
            };
        }
        if vertical_scroll >= file_length {
            vertical_scroll = if file_length == 0 {
                0
            } else {
                file_length - 1
            };
        }
        self.scroll_to(Some(horizontal_scroll), Some(vertical_scroll));
    }

    /// The component's reaction to an event: cursor and scroll commands are
    /// applied; a load request is acknowledged so the caller can read the
    /// file and hand its dimensions to `set_file`; anything else is declined.
    pub fn handle_event(&mut self, event: &AppEvent) -> (r: bool)
        ensures
            match *event {
                AppEvent::Load => r && *final(self) == *old(self),
                AppEvent::CursorY(d) => r && *final(self) == move_cursor_spec(*old(self), d),
                AppEvent::ScrollX(d) => r && *final(self) == scroll_spec(
                    *old(self),
                    delta_int(d),
                    0,
                ),
                AppEvent::ScrollY(d) => r && *final(self) == scroll_spec(
                    *old(self),
                    0,
                    delta_int(d),
                ),
                AppEvent::CursorX(d) => r && *final(self) == (Viewport {
                    cursor_pos: (
                        old(self).cursor_pos.0,
                        if d is Inc {
                            1usize
                        } else {
                            0usize
                        },
                    ),
                    ..*old(self)
                }),
                _ => !r && *final(self) == *old(self),
            },
    {
        match event {
            AppEvent::Load => true,
            AppEvent::CursorY(d) => {
                self.move_cursor(d);
                true
            },
            AppEvent::ScrollX(d) => {
                let step = d.to_isize();
                self.scroll(step, 0);
                true
            },
            AppEvent::ScrollY(d) => {
                let step = d.to_isize();
                self.scroll(0, step);
                true
            },
            AppEvent::CursorX(d) => {
                self.cursor_pos.1 = match d {
                    Delta::Inc(_) => 1,
                    _ => 0,
                };
                true
            },
            _ => false,
        }
    }

    /// The line a vertical command re-anchors an off-screen cursor to: the
    /// top visible line moving down, the bottom visible line moving up. A
    /// cursor above the window moving down re-enters it from above, so it
    /// lands on the first row; one below moving up enters from below, on
    /// the last row.
    pub open spec fn reanchor_line(self, dir: Direction) -> int {
        if dir is Down {
            self.vertical_scroll as int
        } else {
            sat_usize(sat_usize(self.vertical_scroll + self.viewport.0) - 1)
        }
    }

    /// Where a movement command starts from: the current token, unless a
    /// vertical command finds the cursor outside the visible window, in
    /// which case it first re-anchors to the first selectable token of the
    /// top (moving down) or bottom (moving up) visible line.
    pub open spec fn token_cursor_start(
        self,
        toks: Seq<crate::tree::Token>,
        token: int,
        dir: Direction,
    ) -> int {
        if (dir is Up || dir is Down) && !self.spec_cursor_visible() && has_selectable(toks) {
            fsal_landing(toks, self.reanchor_line(dir))
        } else {
            token
        }
    }

    /// Moves a token cursor one command's worth: an off-screen cursor is
    /// first re-anchored into the window, then the directional movement
    /// policy runs.
    pub fn move_token_cursor(&self, tree: &SyntaxTree, token: usize, dir: &Direction) -> (r:
        usize)
        requires
            tree.wf(),
            token < tree.tokens@.len(),
        ensures
            r == navigate_spec(
                tree.tokens@,
                self.token_cursor_start(tree.tokens@, token as int, *dir),
                *dir,
            ),
            r < tree.tokens@.len(),
    {
        let vertical = matches!(dir, Direction::Up(_)) || matches!(dir, Direction::Down(_));
        if vertical && !self.cursor_visible() {
            let anchor: usize = if matches!(dir, Direction::Down(_)) {
                self.vertical_scroll
            } else {
                self.vertical_scroll.saturating_add(self.viewport.0 as usize).saturating_sub(1)
            };
            proof {
                assert(anchor as int == self.reanchor_line(*dir));
            }
            match tree.first_selectable_at_line(anchor) {
                Some(k) => {
                    return tree.selectable_token_in_direction(k, dir);
                },
                None => {
                    return tree.selectable_token_in_direction(token, dir);
                },
            }
        }
        tree.selectable_token_in_direction(token, dir)
    }
}

/// Saturating addition of a signed step to an unsigned offset.
pub fn add_signed_saturating(a: usize, d: isize) -> (r: usize)
    ensures
        r == sat_usize(a + d),
{
    if d >= 0 {
        a.saturating_add(d as usize)
    } else if d == isize::MIN {
        let m: usize = (isize::MAX as usize) + 1;
        a.saturating_sub(m)
    } else {
        a.saturating_sub((-d) as usize)
    }
}

} // verus!

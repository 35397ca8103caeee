//! Moving the cursor and keeping the window scrolled around it.

use vstd::prelude::*;

use crate::app::SCROLLOFF;

verus! {

/// The track list as the keys see it: how many rows it has, the row the
/// cursor is on, the first row the window shows, and how many rows fit.
#[derive(Clone, Copy, PartialEq, Eq, Structural, Debug)]
pub struct Viewport {
    pub len: usize,
    pub cur: usize,
    pub top: usize,
    pub height: usize,
}

/// The window never shows fewer than one row.
pub open spec fn rows_shown(height: usize) -> int {
    if height == 0 {
        1
    } else {
        height as int
    }
}

/// The rows kept between the cursor and the window's edge: `SCROLLOFF`,
/// unless the window is too short to afford it on both sides.
pub open spec fn margin(height: usize) -> int {
    let h = rows_shown(height);
    if SCROLLOFF <= (h - 1) / 2 {
        SCROLLOFF as int
    } else {
        (h - 1) / 2
    }
}

/// The furthest down the window can start and still be full.
pub open spec fn max_top(len: usize, height: usize) -> int {
    if len > rows_shown(height) {
        len - rows_shown(height)
    } else {
        0
    }
}

/// The first row of the window once it is moved just enough to keep
/// `margin` rows around the cursor, and no further than `max_top`.
pub open spec fn spec_scroll(len: usize, cur: usize, top: usize, height: usize) -> usize {
    let h = rows_shown(height);
    let pad = margin(height);
    let t1: int = if cur < top + pad {
        if cur > pad {
            cur - pad
        } else {
            0
        }
    } else {
        top as int
    };
    let t2: int = if cur + pad >= t1 + h {
        cur + pad + 1 - h
    } else {
        t1
    };
    let m = max_top(len, height);
    (if t2 < m {
        t2
    } else {
        m
    }) as usize
}

fn shown_rows(height: usize) -> (h: usize)
    ensures
        h == rows_shown(height),
{
    if height == 0 {
        1
    } else {
        height
    }
}

impl Viewport {
    /// Keeps the window around the cursor, with `SCROLLOFF` rows of context.
    pub fn scroll_to_cursor(&mut self)
        ensures
            *final(self) == (Viewport {
                top: spec_scroll(old(self).len, old(self).cur, old(self).top, old(self).height),
                ..*old(self)
            }),
    {
        let h = shown_rows(self.height);
        let pad: usize = if SCROLLOFF <= (h - 1) / 2 {
            SCROLLOFF
        } else {
            (h - 1) / 2
        };
        let cur = self.cur as u128;
        let mut top = self.top as u128;
        if cur < top + (pad as u128) {
            top = if cur > pad as u128 {
                cur - pad as u128
            } else {
                0
            };
        }
        if cur + (pad as u128) >= top + (h as u128) {
            top = cur + (pad as u128) + 1 - (h as u128);
        }
        let m: u128 = if self.len > h {
            (self.len - h) as u128
        } else {
            0
        };
        let t = if top < m {
            top
        } else {
            m
        };
        self.top = t as usize;
    }

    /// The cursor back on a row that exists, and the window around it.
    pub fn clamp(&mut self)
        ensures
            old(self).len == 0 ==> *final(self) == (Viewport { cur: 0, top: 0, ..*old(self) }),
            old(self).len > 0 ==> {
                let cur = if old(self).cur < old(self).len {
                    old(self).cur
                } else {
                    (old(self).len - 1) as usize
                };
                *final(self) == (Viewport {
                    cur,
                    top: spec_scroll(old(self).len, cur, old(self).top, old(self).height),
                    ..*old(self)
                })
            },
    {
        if self.len == 0 {
            self.cur = 0;
            self.top = 0;
            return;
        }
        if self.cur >= self.len {
            self.cur = self.len - 1;
        }
        self.scroll_to_cursor();
    }

    /// `j`, `k` and friends: `delta` rows down (up when negative), held to
    /// the list. Nothing happens on an empty list.
    pub fn move_cursor(&mut self, delta: isize)
        ensures
            old(self).len == 0 ==> *final(self) == *old(self),
            old(self).len > 0 ==> {
                let want = old(self).cur + delta;
                let cur: usize = if want < 0 {
                    0
                } else if want > old(self).len - 1 {
                    (old(self).len - 1) as usize
                } else {
                    want as usize
                };
                *final(self) == (Viewport {
                    cur,
                    top: spec_scroll(old(self).len, cur, old(self).top, old(self).height),
                    ..*old(self)
                })
            },
    {
        if self.len == 0 {
            return;
        }
        let want: i128 = (self.cur as i128) + (delta as i128);
        let last: i128 = (self.len - 1) as i128;
        self.cur = if want < 0 {
            0
        } else if want > last {
            self.len - 1
        } else {
            want as usize
        };
        self.scroll_to_cursor();
    }

    /// `12G`: row `row`, or the last when there are fewer.
    pub fn goto(&mut self, row: usize)
        ensures
            old(self).len == 0 ==> *final(self) == *old(self),
            old(self).len > 0 ==> {
                let cur = if row < old(self).len {
                    row
                } else {
                    (old(self).len - 1) as usize
                };
                *final(self) == (Viewport {
                    cur,
                    top: spec_scroll(old(self).len, cur, old(self).top, old(self).height),
                    ..*old(self)
                })
            },
    {
        if self.len == 0 {
            return;
        }
        self.cur = if row < self.len {
            row
        } else {
            self.len - 1
        };
        self.scroll_to_cursor();
    }

    /// `zz`, `zt`, `zb`: move the window, not the cursor. `t` puts the
    /// cursor's row at the top, `b` at the bottom, anything else in the
    /// middle.
    pub fn scroll_cursor_to(&mut self, place: char)
        ensures
            ({
                let h = rows_shown(old(self).height);
                let cur = old(self).cur as int;
                let want: int = if place == 't' {
                    cur
                } else if place == 'b' {
                    cur + 1 - (if h < cur + 1 {
                        h
                    } else {
                        cur + 1
                    })
                } else if cur > h / 2 {
                    cur - h / 2
                } else {
                    0
                };
                let m = max_top(old(self).len, old(self).height);
                *final(self) == (Viewport {
                    top: (if want < m {
                        want
                    } else {
                        m
                    }) as usize,
                    ..*old(self)
                })
            }),
    {
        let h = shown_rows(self.height);
        let cur = self.cur as u128;
        let hh = h as u128;
        let want: u128 = if place == 't' {
            cur
        } else if place == 'b' {
            cur + 1 - (if hh < cur + 1 {
                hh
            } else {
                cur + 1
            })
        } else if cur > hh / 2 {
            cur - hh / 2
        } else {
            0
        };
        let m: u128 = if self.len > h {
            (self.len - h) as u128
        } else {
            0
        };
        self.top = (if want < m {
            want
        } else {
            m
        }) as usize;
    }

    /// `H`, `M`, `L`: the cursor to the top, middle or bottom of the window,
    /// keeping the margin where there is room for it.
    pub fn cursor_to_screen(&mut self, place: char)
        ensures
            ({
                let h = rows_shown(old(self).height);
                let top = old(self).top as int;
                let last_row: int = if old(self).len > 0 {
                    old(self).len - 1
                } else {
                    0
                };
                let last_visible: int = if top + h - 1 < last_row {
                    top + h - 1
                } else {
                    last_row
                };
                let off: int = if SCROLLOFF <= h / 2 {
                    SCROLLOFF as int
                } else {
                    h / 2
                };
                let row: int = if place == 'H' {
                    if top + off < last_visible {
                        top + off
                    } else {
                        last_visible
                    }
                } else if place == 'L' {
                    let up: int = if last_visible > off {
                        last_visible - off
                    } else {
                        0
                    };
                    if up > top {
                        up
                    } else {
                        top
                    }
                } else {
                    (top + last_visible) / 2
                };
                *final(self) == (Viewport {
                    cur: row as usize,
                    top: spec_scroll(old(self).len, row as usize, old(self).top, old(self).height),
                    ..*old(self)
                })
            }),
    {
        let h = shown_rows(self.height) as u128;
        let top = self.top as u128;
        let last_row: u128 = if self.len > 0 {
            (self.len - 1) as u128
        } else {
            0
        };
        let last_visible: u128 = if top + h - 1 < last_row {
            top + h - 1
        } else {
            last_row
        };
        let off: u128 = if (SCROLLOFF as u128) <= h / 2 {
            SCROLLOFF as u128
        } else {
            h / 2
        };
        let row: u128 = if place == 'H' {
            if top + off < last_visible {
                top + off
            } else {
                last_visible
            }
        } else if place == 'L' {
            let up: u128 = if last_visible > off {
                last_visible - off
            } else {
                0
            };
            if up > top {
                up
            } else {
                top
            }
        } else {
            (top + last_visible) / 2
        };
        self.cur = row as usize;
        self.scroll_to_cursor();
    }

    /// `ctrl-e` and `ctrl-y`: the window moves by `delta` rows, and the
    /// cursor follows only when the window pushes it.
    pub fn scroll_view(&mut self, delta: isize)
        ensures
            ({
                let m = max_top(old(self).len, old(self).height);
                let want = old(self).top + delta;
                let top: int = if want < 0 {
                    0
                } else if want > m {
                    m
                } else {
                    want
                };
                let bottom: int = top + (if old(self).height > 0 {
                    old(self).height - 1
                } else {
                    0
                });
                let held: int = if old(self).cur < top {
                    top
                } else if old(self).cur > bottom {
                    bottom
                } else {
                    old(self).cur as int
                };
                let cur: int = if held < old(self).len - 1 {
                    held
                } else {
                    old(self).len - 1
                };
                &&& old(self).len == 0 ==> *final(self) == (Viewport { top: top as usize, ..*old(self) })
                &&& old(self).len > 0 ==> *final(self) == (Viewport {
                    cur: cur as usize,
                    top: spec_scroll(old(self).len, cur as usize, top as usize, old(self).height),
                    ..*old(self)
                })
            }),
    {
        let h = shown_rows(self.height);
        let m: i128 = if self.len > h {
            (self.len - h) as i128
        } else {
            0
        };
        let want: i128 = (self.top as i128) + (delta as i128);
        let top: i128 = if want < 0 {
            0
        } else if want > m {
            m
        } else {
            want
        };
        self.top = top as usize;
        let bottom: u128 = (top as u128) + (if self.height > 0 {
            (self.height - 1) as u128
        } else {
            0
        });
        let held: u128 = if (self.cur as u128) < (top as u128) {
            top as u128
        } else if (self.cur as u128) > bottom {
            bottom
        } else {
            self.cur as u128
        };
        let row: usize = if held > usize::MAX as u128 {
            usize::MAX
        } else {
            held as usize
        };
        self.goto(row);
    }
}

/// Wherever the window was, once it is scrolled to the cursor the cursor
/// is on screen, and the window starts no further down than it can while
/// still being full.
pub proof fn lemma_scroll_shows_cursor(len: usize, cur: usize, top: usize, height: usize)
    requires
        cur < len,
    ensures
        spec_scroll(len, cur, top, height) <= cur < spec_scroll(len, cur, top, height) + rows_shown(
            height,
        ),
        spec_scroll(len, cur, top, height) <= max_top(len, height),
{
}

/// Every cursor move leaves the cursor on a row that exists and inside the
/// window: whatever `j`, `k`, `G` or `H` asked for, the cursor is never left
/// scrolled off screen.
pub proof fn law_the_cursor_stays_on_screen(v: Viewport, cur: usize)
    requires
        cur < v.len,
    ensures
        ({
            let top = spec_scroll(v.len, cur, v.top, v.height);
            top <= cur < top + rows_shown(v.height) && top <= max_top(v.len, v.height)
        }),
{
    lemma_scroll_shows_cursor(v.len, cur, v.top, v.height);
}

} // verus!

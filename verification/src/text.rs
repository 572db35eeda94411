//! The text tool's editing session: the content buffer with its cursor,
//! the session flags, the frozen backing image that every frame is
//! re-rendered from, and the layout bookkeeping that keeps the text
//! inside the canvas.

use vstd::prelude::*;
use crate::history::Image;

verus! {

/// The concatenation of the given lines with a line break between each
/// pair of neighbours.
pub open spec fn join_lines(ls: Seq<Seq<char>>) -> Seq<char>
    decreases ls.len(),
{
    if ls.len() == 0 {
        Seq::empty()
    } else if ls.len() == 1 {
        ls[0]
    } else {
        ls[0] + seq!['\n'] + join_lines(ls.drop_first())
    }
}

/// Appending one more line appends a break and that line.
pub proof fn lemma_join_push(ls: Seq<Seq<char>>, l: Seq<char>)
    requires
        ls.len() >= 1,
    ensures
        join_lines(ls.push(l)) == join_lines(ls) + seq!['\n'] + l,
    decreases ls.len(),
{
    if ls.len() == 1 {
        assert(ls.push(l).drop_first() =~= seq![l]);
        assert(join_lines(seq![l]) == l);
        assert(ls.push(l)[0] == ls[0]);
        assert(join_lines(ls.push(l)) =~= join_lines(ls) + seq!['\n'] + l);
    } else {
        lemma_join_push(ls.drop_first(), l);
        assert(ls.push(l).drop_first() =~= ls.drop_first().push(l));
        assert(join_lines(ls.push(l)) == ls[0] + seq!['\n'] + join_lines(ls.drop_first().push(l)));
        assert(join_lines(ls.push(l)) =~= join_lines(ls) + seq!['\n'] + l);
    }
}

/// The state of one text-entry session.
pub struct TextManager {
    /// The characters typed so far, line breaks included.
    pub content: Vec<char>,
    /// Where the next character is inserted.
    pub cursor_x: usize,
    /// A session is active: the first click has landed and keystrokes go
    /// into `content`.
    pub writing: bool,
    /// The live canvas holds a transient cursor or guide box that a
    /// redraw from the last committed state must clear.
    pub dirty: bool,
    /// Canvas position where the text starts.
    pub edge_x: u32,
    pub edge_y: u32,
    /// Font size; one line advances the baseline by this much.
    pub curr_dim: u32,
    /// Measured extent of the rendered text, reported by the host after
    /// rendering.
    pub width: u32,
    pub height: u32,
    /// Room from the text origin to the canvas edges, fixed at session
    /// start.
    pub max_width: u32,
    pub max_height: u32,
    /// The snapshot frozen when the session began; every frame is
    /// re-rendered from it so the cursor never burns in.
    pub original_img: Image,
}

impl TextManager {
    /// A fresh manager holding the given backing image, with an empty
    /// buffer and the default font size.
    pub fn new(img: Image) -> (r: TextManager)
        ensures
            r.content@ =~= Seq::<char>::empty(),
            r.cursor_x == 0,
            !r.writing,
            !r.dirty,
            r.curr_dim == 15,
            r.width == 0,
            r.height == 0,
            r.max_width == 0,
            r.max_height == 0,
            r.original_img == img,
    {
        TextManager {
            content: Vec::new(),
            cursor_x: 0,
            writing: false,
            dirty: false,
            edge_x: 0,
            edge_y: 0,
            curr_dim: 15,
            width: 0,
            height: 0,
            max_width: 0,
            max_height: 0,
            original_img: img,
        }
    }

    /// End the session: clear the buffer, the flags and the measured
    /// extents, and restore the default font size. The backing image and
    /// the origin stay.
    pub fn reset(&mut self)
        ensures
            final(self).content@ =~= Seq::<char>::empty(),
            final(self).cursor_x == 0,
            !final(self).writing,
            !final(self).dirty,
            final(self).curr_dim == 15,
            final(self).width == 0,
            final(self).height == 0,
            final(self).max_width == 0,
            final(self).max_height == 0,
            final(self).edge_x == old(self).edge_x,
            final(self).edge_y == old(self).edge_y,
            final(self).original_img == old(self).original_img,
    {
        self.content = Vec::new();
        self.cursor_x = 0;
        self.writing = false;
        self.dirty = false;
        self.curr_dim = 15;
        self.width = 0;
        self.height = 0;
        self.max_width = 0;
        self.max_height = 0;
    }

    /// Room from the text origin to the right canvas edge.
    pub fn update_max_width(&mut self, canvas_width: u32)
        requires
            old(self).edge_x <= canvas_width,
        ensures
            final(self).max_width == canvas_width - old(self).edge_x,
            *final(self) == (TextManager { max_width: final(self).max_width, ..*old(self) }),
    {
        self.max_width = canvas_width - self.edge_x;
    }

    /// Room from the text origin to the bottom canvas edge.
    pub fn update_max_height(&mut self, canvas_height: u32)
        requires
            old(self).edge_y <= canvas_height,
        ensures
            final(self).max_height == canvas_height - old(self).edge_y,
            *final(self) == (TextManager { max_height: final(self).max_height, ..*old(self) }),
    {
        self.max_height = canvas_height - self.edge_y;
    }

    /// Type one character: inserted at the cursor if the rendered text
    /// still fits the available width, ignored otherwise.
    pub fn handle_char(&mut self, c: char)
        requires
            old(self).cursor_x <= old(self).content@.len(),
        ensures
            old(self).width < old(self).max_width ==> {
                &&& final(self).content@ =~= old(self).content@.insert(
                    old(self).cursor_x as int,
                    c,
                )
                &&& final(self).cursor_x == old(self).cursor_x + 1
            },
            old(self).width >= old(self).max_width ==> *final(self) == *old(self),
            final(self).writing == old(self).writing,
            final(self).dirty == old(self).dirty,
            final(self).original_img == old(self).original_img,
    {
        if self.width < self.max_width {
            self.content.insert(self.cursor_x, c);
            proof {
                vstd::std_specs::vec::axiom_spec_len(&self.content);
            }
            self.cursor_x = self.cursor_x + 1;
        }
    }

    /// Break the line at the cursor if the text still fits the available
    /// height; ignored otherwise.
    pub fn handle_enter(&mut self)
        requires
            old(self).cursor_x <= old(self).content@.len(),
        ensures
            old(self).height < old(self).max_height ==> {
                &&& final(self).content@ =~= old(self).content@.insert(
                    old(self).cursor_x as int,
                    '\n',
                )
                &&& final(self).cursor_x == old(self).cursor_x + 1
            },
            old(self).height >= old(self).max_height ==> *final(self) == *old(self),
    {
        if self.height < self.max_height {
            self.content.insert(self.cursor_x, '\n');
            proof {
                vstd::std_specs::vec::axiom_spec_len(&self.content);
            }
            self.cursor_x = self.cursor_x + 1;
        }
    }

    /// Delete the character before the cursor; a no-op at the start of
    /// the buffer.
    pub fn handle_backspace(&mut self)
        requires
            old(self).cursor_x <= old(self).content@.len(),
        ensures
            old(self).cursor_x > 0 ==> {
                &&& final(self).content@ =~= old(self).content@.remove(
                    old(self).cursor_x - 1,
                )
                &&& final(self).cursor_x == old(self).cursor_x - 1
            },
            old(self).cursor_x == 0 ==> *final(self) == *old(self),
    {
        if self.cursor_x > 0 {
            self.content.remove(self.cursor_x - 1);
            self.cursor_x = self.cursor_x - 1;
        }
    }

    /// Move the cursor one character right, stopping at the end.
    pub fn handle_arrow_right(&mut self)
        ensures
            final(self).cursor_x == (if old(self).cursor_x < old(self).content@.len() {
                old(self).cursor_x + 1
            } else {
                old(self).cursor_x as int
            }),
            final(self).content@ == old(self).content@,
            *final(self) == (TextManager { cursor_x: final(self).cursor_x, ..*old(self) }),
    {
        if self.cursor_x < self.content.len() {
            self.cursor_x = self.cursor_x + 1;
        }
    }

    /// Move the cursor one character left, stopping at the start.
    pub fn handle_arrow_left(&mut self)
        ensures
            final(self).cursor_x == (if old(self).cursor_x > 0 {
                old(self).cursor_x - 1
            } else {
                0int
            }),
            final(self).content@ == old(self).content@,
            *final(self) == (TextManager { cursor_x: final(self).cursor_x, ..*old(self) }),
    {
        if self.cursor_x > 0 {
            self.cursor_x = self.cursor_x - 1;
        }
    }

    /// Split the content into its lines: line breaks separate them and
    /// appear in none of them, and joining them with line breaks gives
    /// back the content exactly.
    pub fn lines(&self) -> (r: Vec<Vec<char>>)
        ensures
            r@.len() >= 1,
            join_lines(r@.map_values(|l: Vec<char>| l@)) == self.content@,
            forall|i: int|
                0 <= i < r@.len() ==> !(#[trigger] r@[i])@.contains('\n'),
    {
        let mut out: Vec<Vec<char>> = Vec::new();
        let mut cur: Vec<char> = Vec::new();
        let mut i: usize = 0;
        while i < self.content.len()
            invariant
                i <= self.content@.len(),
                join_lines(out@.map_values(|l: Vec<char>| l@).push(cur@)) == self.content@.subrange(
                    0,
                    i as int,
                ),
                forall|k: int|
                    0 <= k < out@.len() ==> !(#[trigger] out@[k])@.contains('\n'),
                !cur@.contains('\n'),
            decreases self.content@.len() - i,
        {
            let ghost outm0 = out@.map_values(|l: Vec<char>| l@);
            let ghost cur0 = cur@;
            let c = self.content[i];
            if c == '\n' {
                out.push(cur);
                cur = Vec::new();
                proof {
                    let outm = out@.map_values(|l: Vec<char>| l@);
                    assert(outm =~= outm0.push(cur0));
                    assert(self.content@.subrange(0, i + 1) =~= self.content@.subrange(0, i as int)
                        + seq![self.content@[i as int]]);
                    if outm0.len() == 0 {
                        assert(join_lines(outm0.push(cur0)) == cur0);
                        assert(outm.push(cur@).drop_first() =~= seq![cur@]);
                        assert(join_lines(seq![cur@]) == cur@);
                        assert(join_lines(outm.push(cur@)) == outm.push(cur@)[0] + seq!['\n']
                            + join_lines(outm.push(cur@).drop_first()));
                        assert(outm.push(cur@)[0] == cur0);
                        assert(join_lines(outm.push(cur@)) =~= cur0 + seq!['\n'] + cur@);
                    } else {
                        lemma_join_push(outm0.push(cur0), cur@);
                        lemma_join_push(outm0, cur0);
                    }
                    assert(join_lines(outm.push(cur@)) =~= self.content@.subrange(0, i + 1));
                }
            } else {
                cur.push(c);
                proof {
                    let outm = out@.map_values(|l: Vec<char>| l@);
                    assert(outm =~= outm0);
                    assert(cur@ =~= cur0.push(self.content@[i as int]));
                    assert(self.content@.subrange(0, i + 1) =~= self.content@.subrange(0, i as int)
                        + seq![self.content@[i as int]]);
                    if outm0.len() == 0 {
                        assert(join_lines(outm.push(cur@)) == cur@);
                        assert(join_lines(outm0.push(cur0)) == cur0);
                    } else {
                        lemma_join_push(outm0, cur0);
                        lemma_join_push(outm0, cur@);
                    }
                    assert(join_lines(outm.push(cur@)) =~= self.content@.subrange(0, i + 1));
                    assert(!cur@.contains('\n')) by {
                        assert forall|k: int| 0 <= k < cur@.len() implies cur@[k] != '\n' by {
                            if k < cur0.len() {
                                assert(!cur0.contains('\n'));
                            }
                        }
                    }
                }
            }
            i = i + 1;
        }
        let ghost outm0 = out@.map_values(|l: Vec<char>| l@);
        let ghost curfin = cur@;
        out.push(cur);
        proof {
            assert(out@.map_values(|l: Vec<char>| l@) =~= outm0.push(curfin));
            assert(self.content@.subrange(0, self.content@.len() as int) =~= self.content@);
        }
        out
    }

    /// The content as shown while editing: a cursor marker transiently
    /// inserted at the cursor position. The committed content itself
    /// never contains the marker.
    pub fn display_content(&self) -> (r: Vec<char>)
        requires
            self.cursor_x <= self.content@.len(),
        ensures
            r@ =~= self.content@.insert(self.cursor_x as int, '_'),
    {
        let mut out = self.content.clone();
        proof {
            assert forall|i: int| 0 <= i < self.content@.len() implies out@[i]
                == self.content@[i] by {
                assert(vstd::pervasive::cloned::<char>(self.content@[i], out@[i]));
            }
            assert(out@ =~= self.content@);
        }
        out.insert(self.cursor_x, '_');
        out
    }

    /// The preview rectangle around the text being edited: the measured
    /// extent padded by a quarter of the font size on each side, pulled
    /// up and left of the origin by the padding (stopping at the canvas
    /// edge) and clamped so it never exceeds the room available to the
    /// session.
    pub fn guide_rect(&self) -> (r: (u32, u32, u32, u32))
        ensures
            ({
                let pad = self.curr_dim as int / 4;
                &&& r.0 == vstd::math::max(self.edge_x - pad, 0)
                &&& r.1 == vstd::math::max(self.edge_y - pad, 0)
                &&& r.2 == vstd::math::min(self.width + 2 * pad, self.max_width as int)
                &&& r.3 == vstd::math::min(self.height + 2 * pad, self.max_height as int)
            }),
    {
        let pad: u32 = self.curr_dim / 4;
        let x0: u32 = if self.edge_x >= pad {
            self.edge_x - pad
        } else {
            0
        };
        let y0: u32 = if self.edge_y >= pad {
            self.edge_y - pad
        } else {
            0
        };
        let w: u64 = self.width as u64 + 2 * pad as u64;
        let h: u64 = self.height as u64 + 2 * pad as u64;
        let w: u32 = if w > self.max_width as u64 {
            self.max_width
        } else {
            w as u32
        };
        let h: u32 = if h > self.max_height as u64 {
            self.max_height
        } else {
            h as u32
        };
        (x0, y0, w, h)
    }
}

} // verus!

use vstd::prelude::*;
use vstd::string::StrSliceExecFns;

verus! {

/// A grid `g` holds exactly `h` rows of exactly `w` characters each.
pub open spec fn grid_wf(g: Seq<Seq<char>>, h: nat, w: nat) -> bool {
    g.len() == h && forall|r: int| 0 <= r < g.len() ==> (#[trigger] g[r]).len() == w
}

/// A row of `w` spaces.
pub open spec fn blank_row(w: nat) -> Seq<char> {
    Seq::new(w, |c: int| ' ')
}

/// The all-blank grid of the given dimensions.
pub open spec fn blank_grid(h: nat, w: nat) -> Seq<Seq<char>> {
    Seq::new(h, |r: int| blank_row(w))
}

/// The one-row grid holding the characters of `s`.
pub open spec fn string_grid(s: Seq<char>) -> Seq<Seq<char>> {
    seq![s]
}

/// The character cell `(r, c)` of `dst` holds after `src` is composited
/// onto `dst` with its top-left corner at column `x`, row `y`: the source
/// character mapped onto that cell if there is one, the old character
/// otherwise.
pub open spec fn overlay_cell(
    dst: Seq<Seq<char>>,
    x: int,
    y: int,
    src: Seq<Seq<char>>,
    r: int,
    c: int,
) -> char {
    if 0 <= r - y && r - y < src.len() && 0 <= c - x && c - x < src[r - y].len() {
        src[r - y][c - x]
    } else {
        dst[r][c]
    }
}

/// The grid `dst` becomes when `src` is composited onto it with its
/// top-left corner at column `x`, row `y`. Source cells that fall outside
/// `dst` are dropped; cells of `dst` that no source cell reaches keep
/// their characters.
pub open spec fn overlay_grid(dst: Seq<Seq<char>>, x: int, y: int, src: Seq<Seq<char>>) -> Seq<
    Seq<char>,
> {
    Seq::new(dst.len(), |r: int| Seq::new(dst[r].len(), |c: int| overlay_cell(dst, x, y, src, r, c)))
}

/// The view of each line of text.
pub open spec fn views_of_lines(lines: Seq<String>) -> Seq<Seq<char>> {
    lines.map_values(|l: String| l@)
}

/// The `h` × `w` grid filled from `lines`: cell `(r, c)` holds character
/// `c` of line `r` where that line has one, and a space everywhere else.
pub open spec fn lines_grid(h: nat, w: nat, lines: Seq<Seq<char>>) -> Seq<Seq<char>> {
    Seq::new(
        h,
        |r: int|
            Seq::new(
                w,
                |c: int|
                    if r < lines.len() && c < lines[r].len() {
                        lines[r][c]
                    } else {
                        ' '
                    },
            ),
    )
}

/// A fixed-size two-dimensional character buffer: the unit of display.
///
/// Viewed as a sequence of rows, each row a sequence of characters;
/// every constructor establishes, and every operation preserves, the
/// shape stated by [`Frame::wf`].
pub struct Frame {
    height: usize,
    width: usize,
    pixels: Vec<Vec<char>>,
}

impl View for Frame {
    type V = Seq<Seq<char>>;

    closed spec fn view(&self) -> Seq<Seq<char>> {
        Seq::new(self.pixels@.len() as nat, |r: int| self.pixels@[r]@)
    }
}

impl Frame {
    /// The number of rows, as an abstract value.
    pub closed spec fn spec_height(&self) -> nat {
        self.height as nat
    }

    /// The number of columns, as an abstract value.
    pub closed spec fn spec_width(&self) -> nat {
        self.width as nat
    }

    /// The buffer is dense: exactly `height` rows of exactly `width`
    /// characters, never sparse or ragged.
    pub open spec fn wf(&self) -> bool {
        grid_wf(self@, self.spec_height(), self.spec_width())
    }

    /// A blank frame: every one of the `height` × `width` cells a space.
    pub fn new(height: usize, width: usize) -> (frame: Frame)
        ensures
            frame.wf(),
            frame.spec_height() == height,
            frame.spec_width() == width,
            frame@ == blank_grid(height as nat, width as nat),
    {
        let mut pixels: Vec<Vec<char>> = Vec::new();
        let mut r: usize = 0;
        while r < height
            invariant
                r <= height,
                pixels@.len() == r,
                forall|i: int| 0 <= i < r ==> #[trigger] pixels@[i]@ == blank_row(width as nat),
            decreases height - r,
        {
            let row = blank_row_vec(width);
            pixels.push(row);
            r += 1;
        }
        let frame = Frame { height, width, pixels };
        proof {
            assert(frame@ =~~= blank_grid(height as nat, width as nat));
        }
        frame
    }

    /// A one-row frame holding exactly the characters of `text`.
    pub fn from_string(text: &str) -> (frame: Frame)
        ensures
            frame.wf(),
            frame.spec_height() == 1,
            frame.spec_width() == text@.len(),
            frame@ == string_grid(text@),
    {
        let width = text.unicode_len();
        let mut row: Vec<char> = Vec::new();
        let mut c: usize = 0;
        while c < width
            invariant
                c <= width,
                width as nat == text@.len(),
                row@ == text@.subrange(0, c as int),
            decreases width - c,
        {
            row.push(text.get_char(c));
            proof {
                assert(row@ =~= text@.subrange(0, c as int + 1));
            }
            c += 1;
        }
        proof {
            assert(row@ =~= text@);
        }
        let mut pixels: Vec<Vec<char>> = Vec::new();
        pixels.push(row);
        let frame = Frame { height: 1, width, pixels };
        proof {
            assert(frame@ =~~= string_grid(text@));
        }
        frame
    }

    /// The number of rows.
    pub fn get_height(&self) -> (h: usize)
        ensures
            h == self.spec_height(),
    {
        self.height
    }

    /// The number of columns.
    pub fn get_width(&self) -> (w: usize)
        ensures
            w == self.spec_width(),
    {
        self.width
    }

    /// The character at row `row`, column `col`.
    pub fn get_pixel(&self, row: usize, col: usize) -> (ch: char)
        requires
            self.wf(),
            row < self.spec_height(),
            col < self.spec_width(),
        ensures
            ch == self@[row as int][col as int],
    {
        proof {
            assert(self@[row as int] == self.pixels@[row as int]@);
        }
        self.pixels[row][col]
    }

    /// The one shared compositing algorithm: writes each cell of `src`
    /// whose destination `(r + y, c + x)` lies inside this frame, and
    /// silently drops every other source cell. The wide offset type lets
    /// every overlay entry point, whatever its offset range, route
    /// through this single clipping rule.
    #[verifier::loop_isolation(false)]
    fn overlay_core(&mut self, x: i128, y: i128, src: &Frame)
        requires
            old(self).wf(),
            src.wf(),
            -(u64::MAX as i128) <= x <= u64::MAX as i128,
            -(u64::MAX as i128) <= y <= u64::MAX as i128,
        ensures
            final(self).wf(),
            final(self).spec_height() == old(self).spec_height(),
            final(self).spec_width() == old(self).spec_width(),
            final(self)@ == overlay_grid(old(self)@, x as int, y as int, src@),
    {
        let src_height = src.get_height();
        let mut r: usize = 0;
        while r < src_height
            invariant
                r <= src_height,
                self.wf(),
                self.spec_height() == old(self).spec_height(),
                self.spec_width() == old(self).spec_width(),
                forall|rr: int, cc: int|
                    0 <= rr < self@.len() && 0 <= cc < self@[rr].len() ==> (#[trigger] self@[rr][cc])
                        == if 0 <= rr - y && rr - y < r {
                        overlay_cell(old(self)@, x as int, y as int, src@, rr, cc)
                    } else {
                        old(self)@[rr][cc]
                    },
            decreases src_height - r,
        {
            let dr: i128 = r as i128 + y;
            if 0 <= dr && dr < self.height as i128 {
                let dru: usize = dr as usize;
                let src_row_len = src.get_width();
                let mut c: usize = 0;
                while c < src_row_len
                    invariant
                        c <= src_row_len,
                        r < src_height,
                        dr == r as i128 + y,
                        0 <= dr < self.spec_height(),
                        dru == dr as usize,
                        self.wf(),
                        self.spec_height() == old(self).spec_height(),
                        self.spec_width() == old(self).spec_width(),
                        forall|rr: int, cc: int|
                            0 <= rr < self@.len() && 0 <= cc < self@[rr].len() ==> (
                            #[trigger] self@[rr][cc]) == if 0 <= rr - y && (rr - y < r || (rr - y
                                == r && 0 <= cc - x && cc - x < c)) {
                                overlay_cell(old(self)@, x as int, y as int, src@, rr, cc)
                            } else {
                                old(self)@[rr][cc]
                            },
                    decreases src_row_len - c,
                {
                    let dc: i128 = c as i128 + x;
                    if 0 <= dc && dc < self.width as i128 {
                        let dcu: usize = dc as usize;
                        proof {
                            assert(src@[r as int] == src.pixels@[r as int]@);
                            assert(self@[dru as int] == self.pixels@[dru as int]@);
                        }
                        let ch = src.pixels[r][c];
                        let ghost prev = self@;
                        self.pixels[dru][dcu] = ch;
                        proof {
                            assert forall|rr: int|
                                0 <= rr < self@.len() implies #[trigger] self@[rr] == if rr == dru {
                                prev[rr].update(dcu as int, ch)
                            } else {
                                prev[rr]
                            } by {
                                if rr == dru {
                                    assert(self@[rr] =~= prev[rr].update(dcu as int, ch));
                                }
                            }
                        }
                    }
                    c += 1;
                }
            }
            r += 1;
        }
        proof {
            assert(self@ =~~= overlay_grid(old(self)@, x as int, y as int, src@));
        }
    }

    /// Composites `frame` onto this frame with `frame`'s top-left corner
    /// at column `x`, row `y` (both offsets signed): destinations inside
    /// this frame are overwritten, source cells that land outside are
    /// silently dropped.
    pub fn overlay_with_frame_at_position(&mut self, x: i32, y: i32, frame: &Frame)
        requires
            old(self).wf(),
            frame.wf(),
        ensures
            final(self).wf(),
            final(self).spec_height() == old(self).spec_height(),
            final(self).spec_width() == old(self).spec_width(),
            final(self)@ == overlay_grid(old(self)@, x as int, y as int, frame@),
    {
        self.overlay_core(x as i128, y as i128, frame);
    }

    /// Composites `frame` onto this frame at the origin.
    pub fn overlay_with_frame(&mut self, frame: &Frame)
        requires
            old(self).wf(),
            frame.wf(),
        ensures
            final(self).wf(),
            final(self).spec_height() == old(self).spec_height(),
            final(self).spec_width() == old(self).spec_width(),
            final(self)@ == overlay_grid(old(self)@, 0, 0, frame@),
    {
        self.overlay_core(0, 0, frame);
    }

    /// Composites `text` onto this frame as a one-row patch with its
    /// first character at column `x`, row `y`, under the same clipping
    /// rule as a frame overlay.
    pub fn overlay_with_string_at_position(&mut self, x: i32, y: i32, text: &str)
        requires
            old(self).wf(),
        ensures
            final(self).wf(),
            final(self).spec_height() == old(self).spec_height(),
            final(self).spec_width() == old(self).spec_width(),
            final(self)@ == overlay_grid(old(self)@, x as int, y as int, string_grid(text@)),
    {
        let patch = Frame::from_string(text);
        self.overlay_core(x as i128, y as i128, &patch);
    }

    /// Composites `text` onto row 0 of this frame, starting at column 0.
    pub fn overlay_with_string(&mut self, text: &str)
        requires
            old(self).wf(),
        ensures
            final(self).wf(),
            final(self).spec_height() == old(self).spec_height(),
            final(self).spec_width() == old(self).spec_width(),
            final(self)@ == overlay_grid(old(self)@, 0, 0, string_grid(text@)),
    {
        let patch = Frame::from_string(text);
        self.overlay_core(0, 0, &patch);
    }

    /// An independent deep copy: a new frame, pixel-identical to this
    /// one, owning its own buffer.
    pub fn duplicate(&self) -> (copy: Frame)
        requires
            self.wf(),
        ensures
            copy.wf(),
            copy.spec_height() == self.spec_height(),
            copy.spec_width() == self.spec_width(),
            copy@ == self@,
    {
        let mut pixels: Vec<Vec<char>> = Vec::new();
        let mut r: usize = 0;
        while r < self.height
            invariant
                r <= self.height,
                self.wf(),
                pixels@.len() == r,
                forall|i: int| 0 <= i < r ==> #[trigger] pixels@[i]@ == self@[i],
            decreases self.height - r,
        {
            proof {
                assert(self@[r as int] == self.pixels@[r as int]@);
            }
            let row = copy_row(&self.pixels[r]);
            pixels.push(row);
            r += 1;
        }
        let copy = Frame { height: self.height, width: self.width, pixels };
        proof {
            assert(copy@ =~~= self@);
        }
        copy
    }

    /// A `height` × `width` frame filled from text lines: line `i` is
    /// composited as a one-row patch at row `i`, column 0, under the
    /// shared clipping rule. Lines beyond `height` and characters beyond
    /// `width` are dropped; cells no line reaches stay blank.
    #[verifier::loop_isolation(false)]
    pub fn from_lines(height: usize, width: usize, lines: &Vec<String>) -> (frame: Frame)
        ensures
            frame.wf(),
            frame.spec_height() == height,
            frame.spec_width() == width,
            frame@ == lines_grid(height as nat, width as nat, views_of_lines(lines@)),
    {
        let mut frame = Frame::new(height, width);
        proof {
            assert(frame@ =~~= lines_grid(
                height as nat,
                width as nat,
                views_of_lines(lines@).take(0),
            ));
        }
        let mut i: usize = 0;
        while i < lines.len()
            invariant
                i <= lines@.len(),
                frame.wf(),
                frame.spec_height() == height,
                frame.spec_width() == width,
                frame@ == lines_grid(height as nat, width as nat, views_of_lines(lines@).take(
                    i as int,
                )),
            decreases lines@.len() - i,
        {
            let patch = Frame::from_string(lines[i].as_str());
            frame.overlay_core(0, i as i128, &patch);
            proof {
                assert(frame@ =~~= lines_grid(
                    height as nat,
                    width as nat,
                    views_of_lines(lines@).take(i as int + 1),
                ));
            }
            i += 1;
        }
        proof {
            assert(views_of_lines(lines@).take(lines@.len() as int) =~= views_of_lines(lines@));
        }
        frame
    }
}

/// Law: compositing a same-sized frame onto a frame at the origin leaves
/// the target pixel-identical to the source. In particular, a frame
/// overlaid with a copy of itself is left pixel-identical to that copy.
pub proof fn lemma_overlay_with_same_size_replaces(target: Frame, source: Frame)
    requires
        target.wf(),
        source.wf(),
        source.spec_height() == target.spec_height(),
        source.spec_width() == target.spec_width(),
    ensures
        overlay_grid(target@, 0, 0, source@) == source@,
{
    assert(overlay_grid(target@, 0, 0, source@) =~~= source@);
}

/// Law: compositing a frame that lies entirely outside the target — off
/// its right or bottom edge, or wholly off its left or top edge — leaves
/// the target unchanged.
pub proof fn lemma_overlay_outside_leaves_unchanged(target: Frame, source: Frame, x: int, y: int)
    requires
        target.wf(),
        source.wf(),
        x >= target.spec_width() || y >= target.spec_height() || x + source.spec_width() <= 0 || y
            + source.spec_height() <= 0,
    ensures
        overlay_grid(target@, x, y, source@) == target@,
{
    assert(overlay_grid(target@, x, y, source@) =~~= target@);
}

/// Law: compositing a string at least as long as the target is wide onto
/// row 0, column 0, fills row 0 with exactly the string's first `width`
/// characters and leaves every other row unchanged.
pub proof fn lemma_long_string_overlay_truncates(target: Frame, s: Seq<char>)
    requires
        target.wf(),
        s.len() >= target.spec_width(),
        0 < target.spec_height(),
    ensures
        overlay_grid(target@, 0, 0, string_grid(s))[0] == s.take(target.spec_width() as int),
        forall|r: int| 1 <= r < target.spec_height() ==> #[trigger] overlay_grid(
            target@,
            0,
            0,
            string_grid(s),
        )[r] == target@[r],
{
    assert(overlay_grid(target@, 0, 0, string_grid(s))[0] =~= s.take(target.spec_width() as int));
    assert forall|r: int| 1 <= r < target.spec_height() implies #[trigger] overlay_grid(
        target@,
        0,
        0,
        string_grid(s),
    )[r] == target@[r] by {
        assert(overlay_grid(target@, 0, 0, string_grid(s))[r] =~= target@[r]);
    }
}

/// A fresh vector of `width` spaces.
fn blank_row_vec(width: usize) -> (row: Vec<char>)
    ensures
        row@ == blank_row(width as nat),
{
    let mut row: Vec<char> = Vec::new();
    let mut c: usize = 0;
    while c < width
        invariant
            c <= width,
            row@.len() == c,
            forall|i: int| 0 <= i < c ==> row@[i] == ' ',
        decreases width - c,
    {
        row.push(' ');
        c += 1;
    }
    proof {
        assert(row@ =~= blank_row(width as nat));
    }
    row
}

/// A fresh vector holding the same characters as `source`.
fn copy_row(source: &Vec<char>) -> (row: Vec<char>)
    ensures
        row@ == source@,
{
    let mut row: Vec<char> = Vec::new();
    let mut c: usize = 0;
    while c < source.len()
        invariant
            c <= source@.len(),
            row@ == source@.subrange(0, c as int),
        decreases source@.len() - c,
    {
        row.push(source[c]);
        proof {
            assert(row@ =~= source@.subrange(0, c as int + 1));
        }
        c += 1;
    }
    proof {
        assert(row@ =~= source@);
    }
    row
}

} // verus!

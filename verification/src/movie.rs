use vstd::prelude::*;
use vstd::arithmetic::div_mod::{
    lemma_fundamental_div_mod, lemma_fundamental_div_mod_converse, lemma_small_mod,
};
use crate::error::CineError;
use crate::frame::{blank_grid, overlay_grid, Frame};

verus! {

/// A counter that is reset to zero each time it reaches `c` tracks the
/// residue of the number of steps taken modulo `c`.
proof fn lemma_cyclic_advance(n: int, c: int, k: int)
    requires
        0 <= n,
        0 < c,
        0 <= k < c,
        k == n % c,
    ensures
        (n + 1) % c == if k + 1 == c {
            0int
        } else {
            k + 1
        },
{
    lemma_fundamental_div_mod(n, c);
    let q = n / c;
    assert(c * q + k == q * c + k) by (nonlinear_arith);
    if k + 1 == c {
        assert((q + 1) * c + 0 == c * q + c) by (nonlinear_arith);
        lemma_fundamental_div_mod_converse(n + 1, c, q + 1, 0);
    } else {
        lemma_fundamental_div_mod_converse(n + 1, c, q, k + 1);
    }
}

/// Whether frame index `i` is a member of the index set.
pub open spec fn index_selected(index_set: Seq<u32>, i: int) -> bool {
    exists|k: int| 0 <= k < index_set.len() && index_set[k] as int == i
}

/// How many frame indices below `i` the index set selects: the number of
/// source frames consumed before frame `i` in a range-restricted overlay.
pub open spec fn selected_before(index_set: Seq<u32>, i: int) -> nat
    decreases i,
{
    if i <= 0 {
        0
    } else {
        selected_before(index_set, i - 1) + (if index_selected(index_set, i - 1) {
            1nat
        } else {
            0nat
        })
    }
}

/// An ordered collection of same-sized frames: insertion order is
/// playback order. Every contained frame has the movie's dimensions, and
/// each is an independent copy of what the caller appended.
pub struct Movie {
    height: usize,
    width: usize,
    frames: Vec<Frame>,
}

impl View for Movie {
    type V = Seq<Seq<Seq<char>>>;

    closed spec fn view(&self) -> Seq<Seq<Seq<char>>> {
        Seq::new(self.frames@.len() as nat, |i: int| self.frames@[i]@)
    }
}

impl Movie {
    /// The height shared by every frame, as an abstract value.
    pub closed spec fn spec_height(&self) -> nat {
        self.height as nat
    }

    /// The width shared by every frame, as an abstract value.
    pub closed spec fn spec_width(&self) -> nat {
        self.width as nat
    }

    /// Every contained frame is well-formed with the movie's dimensions.
    pub closed spec fn wf(&self) -> bool {
        forall|i: int|
            0 <= i < self.frames@.len() ==> ((#[trigger] self.frames@[i]).wf()
                && self.frames@[i].spec_height() == self.spec_height()
                && self.frames@[i].spec_width() == self.spec_width())
    }

    /// An empty movie whose frames will all be `height` × `width`.
    pub fn new(height: usize, width: usize) -> (movie: Movie)
        ensures
            movie.wf(),
            movie.spec_height() == height,
            movie.spec_width() == width,
            movie@.len() == 0,
    {
        Movie { height, width, frames: Vec::new() }
    }

    /// A movie of `frame_amount` independent blank frames.
    #[verifier::loop_isolation(false)]
    pub fn new_blank(height: usize, width: usize, frame_amount: usize) -> (movie: Movie)
        ensures
            movie.wf(),
            movie.spec_height() == height,
            movie.spec_width() == width,
            movie@.len() == frame_amount,
            forall|i: int|
                0 <= i < frame_amount ==> #[trigger] movie@[i] == blank_grid(
                    height as nat,
                    width as nat,
                ),
    {
        let mut movie = Movie::new(height, width);
        let blank_frame = Frame::new(height, width);
        let mut i: usize = 0;
        while i < frame_amount
            invariant
                i <= frame_amount,
                movie.wf(),
                movie.spec_height() == height,
                movie.spec_width() == width,
                movie@.len() == i,
                forall|j: int|
                    0 <= j < i ==> #[trigger] movie@[j] == blank_grid(
                        height as nat,
                        width as nat,
                    ),
            decreases frame_amount - i,
        {
            let _ = movie.add_frame(&blank_frame);
            i += 1;
        }
        movie
    }

    /// The number of frames.
    pub fn frame_count(&self) -> (n: usize)
        ensures
            n == self@.len(),
    {
        self.frames.len()
    }

    /// The height shared by every frame.
    pub fn get_height(&self) -> (h: usize)
        ensures
            h == self.spec_height(),
    {
        self.height
    }

    /// The width shared by every frame.
    pub fn get_width(&self) -> (w: usize)
        ensures
            w == self.spec_width(),
    {
        self.width
    }

    /// The frame at playback position `i`.
    pub fn get_frame(&self, i: usize) -> (frame: &Frame)
        requires
            self.wf(),
            i < self@.len(),
        ensures
            frame.wf(),
            frame.spec_height() == self.spec_height(),
            frame.spec_width() == self.spec_width(),
            frame@ == self@[i as int],
    {
        &self.frames[i]
    }

    /// Appends an independent copy of `frame`, so that mutating the
    /// caller's original afterwards cannot affect the stored frame. A
    /// frame whose dimensions differ from the movie's is refused, and
    /// the movie is left unchanged.
    pub fn add_frame(&mut self, frame: &Frame) -> (result: Result<(), CineError>)
        requires
            old(self).wf(),
            frame.wf(),
        ensures
            final(self).wf(),
            final(self).spec_height() == old(self).spec_height(),
            final(self).spec_width() == old(self).spec_width(),
            (frame.spec_height() == old(self).spec_height() && frame.spec_width() == old(
                self,
            ).spec_width()) ==> (result == Ok::<(), CineError>(()) && final(self)@ == old(
                self,
            )@.push(frame@)),
            (frame.spec_height() != old(self).spec_height() || frame.spec_width() != old(
                self,
            ).spec_width()) ==> (result == Err::<(), CineError>(CineError::DimensionMismatch)
                && final(self)@ == old(self)@),
    {
        if frame.get_height() != self.height || frame.get_width() != self.width {
            return Err(CineError::DimensionMismatch);
        }
        let copy = frame.duplicate();
        self.frames.push(copy);
        proof {
            assert(self@ =~~= old(self)@.push(frame@));
        }
        Ok(())
    }

    /// Composites the frames of `movie` cyclically onto the frames of
    /// this movie at column `x`, row `y`: frame `i` of this movie is
    /// overlaid with frame `i mod n` of `movie`, where `n` is `movie`'s
    /// frame count, so a shorter source tiles across a longer target.
    /// An empty source movie is refused, and this movie is left
    /// unchanged.
    #[verifier::loop_isolation(false)]
    pub fn overlay_with_movie_at_position(&mut self, x: i32, y: i32, movie: &Movie) -> (result:
        Result<(), CineError>)
        requires
            old(self).wf(),
            movie.wf(),
        ensures
            final(self).wf(),
            final(self).spec_height() == old(self).spec_height(),
            final(self).spec_width() == old(self).spec_width(),
            movie@.len() == 0 ==> (result == Err::<(), CineError>(CineError::EmptyOverlaySource)
                && final(self)@ == old(self)@),
            movie@.len() > 0 ==> (result == Ok::<(), CineError>(()) && final(self)@.len() == old(
                self,
            )@.len() && forall|i: int|
                0 <= i < old(self)@.len() ==> #[trigger] final(self)@[i] == overlay_grid(
                    old(self)@[i],
                    x as int,
                    y as int,
                    movie@[i % (movie@.len() as int)],
                )),
    {
        let count = movie.frame_count();
        if count == 0 {
            return Err(CineError::EmptyOverlaySource);
        }
        let total = self.frames.len();
        let mut i: usize = 0;
        let mut k: usize = 0;
        proof {
            lemma_small_mod(0, count as nat);
        }
        while i < total
            invariant
                i <= total,
                total == self.frames@.len(),
                self.frames@.len() == old(self).frames@.len(),
                k < count,
                k as int == (i as int) % (count as int),
                self.wf(),
                self.spec_height() == old(self).spec_height(),
                self.spec_width() == old(self).spec_width(),
                forall|j: int|
                    0 <= j < i ==> #[trigger] self@[j] == overlay_grid(
                        old(self)@[j],
                        x as int,
                        y as int,
                        movie@[j % (count as int)],
                    ),
                forall|j: int| i <= j < total ==> self.frames@[j] == old(self).frames@[j],
            decreases total - i,
        {
            let src = movie.get_frame(k);
            let ghost pre = *self;
            self.frames[i].overlay_with_frame_at_position(x, y, src);
            proof {
                lemma_cyclic_advance(i as int, count as int, k as int);
                assert forall|j: int| 0 <= j < i + 1 implies #[trigger] self@[j] == overlay_grid(
                    old(self)@[j],
                    x as int,
                    y as int,
                    movie@[j % (count as int)],
                ) by {
                    assert(self@[j] == self.frames@[j]@);
                    if j == i {
                        assert(pre.frames@[j] == old(self).frames@[j]);
                        assert(old(self)@[j] == old(self).frames@[j]@);
                    } else {
                        assert(self.frames@[j] == pre.frames@[j]);
                        assert(pre@[j] == pre.frames@[j]@);
                        assert(pre@[j] == overlay_grid(
                            old(self)@[j],
                            x as int,
                            y as int,
                            movie@[j % (count as int)],
                        ));
                    }
                }
            }
            i += 1;
            k += 1;
            if k == count {
                k = 0;
            }
        }
        Ok(())
    }

    /// Composites the frames of `movie` onto the frames of this movie at
    /// the origin, with the same cyclic pairing as the positioned form.
    pub fn overlay_with_movie(&mut self, movie: &Movie) -> (result: Result<(), CineError>)
        requires
            old(self).wf(),
            movie.wf(),
        ensures
            final(self).wf(),
            final(self).spec_height() == old(self).spec_height(),
            final(self).spec_width() == old(self).spec_width(),
            movie@.len() == 0 ==> (result == Err::<(), CineError>(CineError::EmptyOverlaySource)
                && final(self)@ == old(self)@),
            movie@.len() > 0 ==> (result == Ok::<(), CineError>(()) && final(self)@.len() == old(
                self,
            )@.len() && forall|i: int|
                0 <= i < old(self)@.len() ==> #[trigger] final(self)@[i] == overlay_grid(
                    old(self)@[i],
                    0,
                    0,
                    movie@[i % (movie@.len() as int)],
                )),
    {
        self.overlay_with_movie_at_position(0, 0, movie)
    }

    /// Composites the frames of `movie` cyclically onto the frames of
    /// this movie at column `x`, row `y`, but only onto the frames whose
    /// index is a member of `index_set`; the others are left unchanged.
    /// The cyclic counter into `movie` advances only when a frame is
    /// actually overlaid, so skipped frames consume no source frame. An
    /// empty source movie is refused, and this movie is left unchanged.
    #[verifier::loop_isolation(false)]
    pub fn overlay_with_movie_at_position_in_range(
        &mut self,
        x: i32,
        y: i32,
        movie: &Movie,
        index_set: &Vec<u32>,
    ) -> (result: Result<(), CineError>)
        requires
            old(self).wf(),
            movie.wf(),
        ensures
            final(self).wf(),
            final(self).spec_height() == old(self).spec_height(),
            final(self).spec_width() == old(self).spec_width(),
            movie@.len() == 0 ==> (result == Err::<(), CineError>(CineError::EmptyOverlaySource)
                && final(self)@ == old(self)@),
            movie@.len() > 0 ==> (result == Ok::<(), CineError>(()) && final(self)@.len() == old(
                self,
            )@.len() && forall|i: int|
                0 <= i < old(self)@.len() ==> #[trigger] final(self)@[i] == (
                if index_selected(index_set@, i) {
                    overlay_grid(
                        old(self)@[i],
                        x as int,
                        y as int,
                        movie@[(selected_before(index_set@, i) as int) % (movie@.len() as int)],
                    )
                } else {
                    old(self)@[i]
                })),
    {
        let count = movie.frame_count();
        if count == 0 {
            return Err(CineError::EmptyOverlaySource);
        }
        let total = self.frames.len();
        let mut i: usize = 0;
        let mut k: usize = 0;
        proof {
            lemma_small_mod(0, count as nat);
        }
        while i < total
            invariant
                i <= total,
                total == self.frames@.len(),
                self.frames@.len() == old(self).frames@.len(),
                k < count,
                k as int == (selected_before(index_set@, i as int) as int) % (count as int),
                self.wf(),
                self.spec_height() == old(self).spec_height(),
                self.spec_width() == old(self).spec_width(),
                forall|j: int|
                    0 <= j < i ==> #[trigger] self@[j] == (if index_selected(index_set@, j) {
                        overlay_grid(
                            old(self)@[j],
                            x as int,
                            y as int,
                            movie@[(selected_before(index_set@, j) as int) % (count as int)],
                        )
                    } else {
                        old(self)@[j]
                    }),
                forall|j: int| i <= j < total ==> self.frames@[j] == old(self).frames@[j],
            decreases total - i,
        {
            if contains_index(index_set, i) {
                let src = movie.get_frame(k);
                let ghost pre = *self;
                self.frames[i].overlay_with_frame_at_position(x, y, src);
                proof {
                    lemma_cyclic_advance(
                        selected_before(index_set@, i as int) as int,
                        count as int,
                        k as int,
                    );
                    assert(selected_before(index_set@, i as int + 1) == selected_before(
                        index_set@,
                        i as int,
                    ) + 1);
                    assert forall|j: int| 0 <= j < i + 1 implies #[trigger] self@[j] == (
                    if index_selected(index_set@, j) {
                        overlay_grid(
                            old(self)@[j],
                            x as int,
                            y as int,
                            movie@[(selected_before(index_set@, j) as int) % (count as int)],
                        )
                    } else {
                        old(self)@[j]
                    }) by {
                        assert(self@[j] == self.frames@[j]@);
                        if j == i {
                            assert(pre.frames@[j] == old(self).frames@[j]);
                            assert(old(self)@[j] == old(self).frames@[j]@);
                        } else {
                            assert(self.frames@[j] == pre.frames@[j]);
                            assert(pre@[j] == pre.frames@[j]@);
                        }
                    }
                }
                i += 1;
                k += 1;
                if k == count {
                    k = 0;
                }
            } else {
                proof {
                    assert(selected_before(index_set@, i as int + 1) == selected_before(
                        index_set@,
                        i as int,
                    ));
                    assert(self@[i as int] == self.frames@[i as int]@);
                    assert(old(self)@[i as int] == old(self).frames@[i as int]@);
                }
                i += 1;
            }
        }
        Ok(())
    }
}

/// Whether `i` occurs in `index_set`.
fn contains_index(index_set: &Vec<u32>, i: usize) -> (found: bool)
    ensures
        found == index_selected(index_set@, i as int),
{
    let mut k: usize = 0;
    while k < index_set.len()
        invariant
            k <= index_set@.len(),
            forall|j: int| 0 <= j < k ==> (#[trigger] index_set@[j]) as int != i as int,
        decreases index_set@.len() - k,
    {
        if index_set[k] as usize == i {
            proof {
                assert(index_set@[k as int] as int == i as int);
            }
            return true;
        }
        k += 1;
    }
    false
}

/// The pause between played frames, in milliseconds: 1000 divided by the
/// frame rate, by integer division. A rate of zero is refused before any
/// division is attempted.
pub fn playback_delay_ms(frames_per_second: u32) -> (result: Result<u64, CineError>)
    ensures
        frames_per_second == 0 ==> result == Err::<u64, CineError>(CineError::InvalidFrameRate),
        frames_per_second > 0 ==> result == Ok::<u64, CineError>(
            (1000int / frames_per_second as int) as u64,
        ),
{
    if frames_per_second == 0 {
        return Err(CineError::InvalidFrameRate);
    }
    Ok(1000u64 / frames_per_second as u64)
}

} // verus!

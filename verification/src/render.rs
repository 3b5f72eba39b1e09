//! What of a display list is drawn, and where a pixel lies in the frame.
//!
//! A frame is a row-major buffer of four bytes a pixel: red, green, blue, alpha.

use vstd::prelude::*;
use crate::layout::{run_views, GlyphRun, GlyphRunView, VSTEP};

verus! {

/// A run on `baseline_y` lies above a window scrolled down by `scroll`, even
/// with one line of allowance.
pub open spec fn is_above(baseline_y: int, scroll: int) -> bool {
    baseline_y + VSTEP < scroll
}

/// A run on `baseline_y` lies below a window `height` high that is scrolled
/// down by `scroll`.
pub open spec fn is_below(baseline_y: int, scroll: int, height: int) -> bool {
    baseline_y > scroll + height
}

/// How many runs are looked at: all those before the first that lies below
/// the window.
pub open spec fn runs_walked(runs: Seq<GlyphRunView>, scroll: int, height: int) -> int
    decreases runs.len(),
{
    if runs.len() == 0 {
        0
    } else {
        let before = runs_walked(runs.drop_last(), scroll, height);
        if before < runs.len() - 1 || is_below(runs.last().baseline_y, scroll, height) {
            before
        } else {
            runs.len() as int
        }
    }
}

/// The indices among the first `n` runs of those that do not lie above the
/// window, in order.
pub open spec fn not_above(runs: Seq<GlyphRunView>, scroll: int, n: int) -> Seq<int>
    decreases n,
{
    if n <= 0 {
        Seq::empty()
    } else if is_above(runs[n - 1].baseline_y, scroll) {
        not_above(runs, scroll, n - 1)
    } else {
        not_above(runs, scroll, n - 1).push(n - 1)
    }
}

/// The indices of the runs that are drawn, in order: a run above the window
/// is skipped, and the first run below it ends the walk.
pub open spec fn drawn(runs: Seq<GlyphRunView>, scroll: int, height: int) -> Seq<int> {
    not_above(runs, scroll, runs_walked(runs, scroll, height))
}

proof fn lemma_runs_walked(runs: Seq<GlyphRunView>, scroll: int, height: int)
    ensures
        0 <= runs_walked(runs, scroll, height) <= runs.len(),
        forall|i: int|
            0 <= i < runs_walked(runs, scroll, height) ==> !is_below(
                (#[trigger] runs[i]).baseline_y,
                scroll,
                height,
            ),
        runs_walked(runs, scroll, height) < runs.len() ==> is_below(
            runs[runs_walked(runs, scroll, height)].baseline_y,
            scroll,
            height,
        ),
    decreases runs.len(),
{
    if runs.len() > 0 {
        lemma_runs_walked(runs.drop_last(), scroll, height);
        let before = runs_walked(runs.drop_last(), scroll, height);
        assert forall|i: int| 0 <= i < runs_walked(runs, scroll, height) implies !is_below(
            (#[trigger] runs[i]).baseline_y,
            scroll,
            height,
        ) by {
            if i < runs.len() - 1 {
                assert(runs[i] == runs.drop_last()[i]);
            }
        }
        if before < runs.len() - 1 {
            assert(runs[before] == runs.drop_last()[before]);
        }
    }
}

proof fn lemma_not_above(runs: Seq<GlyphRunView>, scroll: int, n: int, i: int)
    requires
        0 <= i < n <= runs.len(),
        !is_above(runs[i].baseline_y, scroll),
    ensures
        not_above(runs, scroll, n).contains(i),
    decreases n,
{
    if i < n - 1 {
        lemma_not_above(runs, scroll, n - 1, i);
        let shorter = not_above(runs, scroll, n - 1);
        let k = choose|k: int| 0 <= k < shorter.len() && shorter[k] == i;
        if !is_above(runs[n - 1].baseline_y, scroll) {
            assert(not_above(runs, scroll, n)[k] == i);
        }
    } else {
        let last = not_above(runs, scroll, n).len() - 1;
        assert(not_above(runs, scroll, n)[last] == i);
    }
}

/// Where the runs stand from top to bottom, ending the walk at the first run
/// below the window loses nothing: every run that lies neither above nor
/// below the window is drawn.
pub proof fn lemma_walk_ends_safely(runs: Seq<GlyphRunView>, scroll: int, height: int)
    requires
        forall|i: int, j: int|
            0 <= i <= j < runs.len() ==> (#[trigger] runs[i]).baseline_y <= (
            #[trigger] runs[j]).baseline_y,
    ensures
        forall|i: int|
            0 <= i < runs.len() && !is_above((#[trigger] runs[i]).baseline_y, scroll) && !is_below(
                runs[i].baseline_y,
                scroll,
                height,
            ) ==> drawn(runs, scroll, height).contains(i),
{
    lemma_runs_walked(runs, scroll, height);
    let walked = runs_walked(runs, scroll, height);
    assert forall|i: int|
        0 <= i < runs.len() && !is_above((#[trigger] runs[i]).baseline_y, scroll) && !is_below(
            runs[i].baseline_y,
            scroll,
            height,
        ) implies drawn(runs, scroll, height).contains(i) by {
        if i >= walked {
            assert(runs[walked].baseline_y <= runs[i].baseline_y);
        }
        lemma_not_above(runs, scroll, walked, i);
    }
}

/// The runs of `display_list` to draw into a window `height` high that is
/// scrolled down by `scroll`, by their indices, in order.
pub fn visible_runs(display_list: &Vec<GlyphRun>, scroll: u32, height: u32) -> (indices: Vec<usize>)
    ensures
        indices@.map_values(|i: usize| i as int) == drawn(
            run_views(display_list@),
            scroll as int,
            height as int,
        ),
{
    let ghost runs = run_views(display_list@);
    let mut indices: Vec<usize> = Vec::new();
    let mut i: usize = 0;
    assert(runs.take(0) == Seq::<GlyphRunView>::empty());
    assert(runs.take(display_list.len() as int) == runs);
    while i < display_list.len()
        invariant
            i <= display_list.len(),
            runs == run_views(display_list@),
            runs.take(display_list.len() as int) == runs,
            runs_walked(runs.take(i as int), scroll as int, height as int) == i,
            indices@.map_values(|k: usize| k as int) == not_above(runs, scroll as int, i as int),
        ensures
            i <= display_list.len(),
            runs_walked(runs, scroll as int, height as int) == i,
            indices@.map_values(|k: usize| k as int) == not_above(runs, scroll as int, i as int),
        decreases display_list.len() - i,
    {
        let y = display_list[i].baseline_y;
        assert(runs[i as int].baseline_y == y);
        assert(runs.take(i + 1).drop_last() == runs.take(i as int));
        if y as u64 > scroll as u64 + height as u64 {
            proof {
                lemma_walk_stops(runs, scroll as int, height as int, i as int);
            }
            break;
        }
        if y as u64 + VSTEP as u64 >= scroll as u64 {
            let ghost before = indices@.map_values(|k: usize| k as int);
            indices.push(i);
            assert(indices@.map_values(|k: usize| k as int) == before.push(i as int));
        }
        i += 1;
    }
    indices
}

/// Once a run lies below the window, the walk over any longer list ends there.
proof fn lemma_walk_stops(runs: Seq<GlyphRunView>, scroll: int, height: int, i: int)
    requires
        0 <= i < runs.len(),
        runs_walked(runs.take(i), scroll, height) == i,
        is_below(runs[i].baseline_y, scroll, height),
    ensures
        runs_walked(runs, scroll, height) == i,
    decreases runs.len() - i,
{
    if runs.len() == i + 1 {
        assert(runs.drop_last() == runs.take(i));
    } else {
        assert(runs.drop_last().take(i) == runs.take(i));
        lemma_walk_stops(runs.drop_last(), scroll, height, i);
    }
}

/// The pixel in column `gx` and row `gy` lies in a window of `width` by `height`.
pub open spec fn in_window(width: int, height: int, gx: int, gy: int) -> bool {
    0 <= gx < width && 0 <= gy < height
}

/// Where the four bytes of the pixel in column `gx` and row `gy` start in the
/// frame of a window `width` wide.
pub open spec fn offset_of(width: int, gx: int, gy: int) -> int {
    (gy * width + gx) * 4
}

/// Where the pixel in column `gx` and row `gy` starts in a frame of
/// `frame_len` bytes for a window of `width` by `height`. A pixel outside the
/// window has no place, nor has one whose four bytes the frame does not hold.
pub fn pixel_offset(frame_len: usize, width: u32, height: u32, gx: i32, gy: i32) -> (offset: Option<
    usize,
>)
    ensures
        offset is Some <==> in_window(width as int, height as int, gx as int, gy as int)
            && offset_of(width as int, gx as int, gy as int) + 4 <= frame_len,
        offset is Some ==> offset->0 == offset_of(width as int, gx as int, gy as int),
{
    if gx < 0 || gy < 0 || gx as u32 >= width || gy as u32 >= height {
        return None;
    }
    assert(0 <= gy * width <= 0xffff_fffe * 0xffff_ffff) by (nonlinear_arith)
        requires
            0 <= gy <= 0xffff_fffe,
            0 <= width <= 0xffff_ffff,
    ;
    let pixel: u64 = gy as u64 * width as u64 + gx as u64;
    if pixel >= (frame_len / 4) as u64 {
        return None;
    }
    Some(pixel as usize * 4)
}

/// Writes an opaque pixel of the colour `red`, `green`, `blue` at `offset`.
pub fn put_pixel(frame: &mut [u8], offset: usize, red: u8, green: u8, blue: u8)
    requires
        offset + 4 <= old(frame)@.len(),
    ensures
        final(frame)@ == old(frame)@.update(offset as int, red).update(offset + 1, green).update(
            offset + 2,
            blue,
        ).update(offset + 3, 255),
{
    frame[offset] = red;
    frame[offset + 1] = green;
    frame[offset + 2] = blue;
    frame[offset + 3] = 255;
}

} // verus!

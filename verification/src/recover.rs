use vstd::prelude::*;

use crate::blur::{box_size_spec, blur_rounds_v, normalize_box_size, rounds_spec, ImageBlur};
use crate::cell::trimmed_cell;
use crate::matcher::{find_char_spec, find_character, glyph_cells};
use crate::raster::{Image, ImageV, CHAR_HEIGHT, CHAR_WIDTH};

verus! {

/// How many blur strengths the calibration search tries: sigma runs from 0.0
/// to 5.0 in steps of 0.1, so a strength is an index below this bound, in
/// tenths.
pub const SIGMA_STEPS: usize = 51;

/// The calibration search from strength `step` on: the first strength whose
/// glyph set matches the raster's first cell strictly, with the character it
/// matched, or nothing once the bound is passed.
pub open spec fn calib_search(
    v: ImageV,
    gsets: Seq<Vec<Image>>,
    alph: Seq<char>,
    step: int,
) -> Option<(int, char)>
    decreases SIGMA_STEPS - step,
{
    if step < 0 || step >= SIGMA_STEPS {
        None
    } else {
        match find_char_spec(trimmed_cell(v, 0, 0), glyph_cells(gsets[step]@), alph, true) {
            Some(c) => Some((step, c)),
            None => calib_search(v, gsets, alph, step + 1),
        }
    }
}

spec fn sigma_view(o: Option<usize>) -> Option<int> {
    match o {
        None => None,
        Some(s) => Some(s as int),
    }
}

/// The recovery walk after the first `k` cells (row-major order): the
/// characters written so far and the calibration state. While no strength is
/// calibrated, each cell re-enters the strength search over the raster's
/// first cell and, on success, pushes the character that search found; once
/// a strength is found it stays fixed, and every further cell is matched
/// loosely at that strength.
pub open spec fn process(
    v: ImageV,
    gsets: Seq<Vec<Image>>,
    alph: Seq<char>,
    chars: int,
    k: int,
) -> (Seq<char>, Option<int>)
    decreases k,
{
    if k <= 0 {
        (Seq::empty(), None::<int>)
    } else {
        let (acc, sig) = process(v, gsets, alph, chars, k - 1);
        let lid = (k - 1) / chars;
        let cid = (k - 1) % chars;
        match sig {
            Some(s) => match find_char_spec(
                trimmed_cell(v, lid, cid),
                glyph_cells(gsets[s]@),
                alph,
                false,
            ) {
                Some(c) => (acc.push(c), Some(s)),
                None => (acc, Some(s)),
            },
            None => match calib_search(v, gsets, alph, 0) {
                Some((s, c)) => (acc.push(c), Some(s)),
                None => (acc, None::<int>),
            },
        }
    }
}

/// The text recovered from a blurred raster, given every candidate glyph
/// set: the raster's grid of full cells is walked in row-major order, and
/// each resolved cell contributes one character.
pub open spec fn recover_spec(v: ImageV, gsets: Seq<Vec<Image>>, alph: Seq<char>) -> Seq<char> {
    let lines = v.height / (CHAR_HEIGHT as int);
    let chars = v.width / (CHAR_WIDTH as int);
    process(v, gsets, alph, chars, lines * chars).0
}

proof fn lemma_calib_search_bounds(v: ImageV, gsets: Seq<Vec<Image>>, alph: Seq<char>, step: int)
    requires
        0 <= step,
    ensures
        calib_search(v, gsets, alph, step) matches Some((s, c)) ==> step <= s < SIGMA_STEPS,
    decreases SIGMA_STEPS - step,
{
    if step < SIGMA_STEPS {
        lemma_calib_search_bounds(v, gsets, alph, step + 1);
    }
}

/// A calibrated strength always lies within the search bound, so it indexes
/// a glyph set.
pub proof fn lemma_strength_in_bounds(
    v: ImageV,
    gsets: Seq<Vec<Image>>,
    alph: Seq<char>,
    chars: int,
    k: int,
)
    ensures
        process(v, gsets, alph, chars, k).1 matches Some(s) ==> 0 <= s < SIGMA_STEPS,
    decreases k,
{
    if k > 0 {
        lemma_strength_in_bounds(v, gsets, alph, chars, k - 1);
        lemma_calib_search_bounds(v, gsets, alph, 0);
    }
}

/// The calibrated state is terminal: once the walk has found a strength,
/// every later cell is processed with that same strength — calibration
/// happens at most once per recovery.
pub proof fn lemma_calibration_terminal(
    v: ImageV,
    gsets: Seq<Vec<Image>>,
    alph: Seq<char>,
    chars: int,
    k1: int,
    k2: int,
)
    requires
        0 <= k1 <= k2,
        process(v, gsets, alph, chars, k1).1 is Some,
    ensures
        process(v, gsets, alph, chars, k2).1 == process(v, gsets, alph, chars, k1).1,
    decreases k2 - k1,
{
    if k2 > k1 {
        lemma_calibration_terminal(v, gsets, alph, chars, k1, k2 - 1);
    }
}

/// Relies on String's FromIterator implementation: collecting characters
/// yields the string of exactly those characters, in order.
#[verifier::external_body]
fn chars_to_string(v: &Vec<char>) -> (s: String)
    ensures
        s@ == v@,
{
    v.iter().collect()
}

impl ImageBlur for Image {
    fn blur(&self, box_size: Option<usize>, round: Option<usize>) -> (r: Image) {
        let bs = match box_size {
            None => 15,
            Some(s) => normalize_box_size(s),
        };
        let radius = (bs - 1) / 2;
        let rounds = match round {
            None => 1,
            Some(n) => n,
        };
        let mut img = self.duplicate();
        let mut i: usize = 0;
        while i < rounds
            invariant
                radius == (box_size_spec(box_size) - 1) / 2,
                rounds == rounds_spec(round),
                self@.wf(),
                255 * (self@.width * self@.height) <= usize::MAX,
                i <= rounds,
                img@ == blur_rounds_v(self@, radius as int, i as nat),
            decreases rounds - i,
        {
            proof {
                crate::blur::lemma_blur_rounds_dims(self@, radius as int, i as nat);
            }
            img = img.blur_once(radius);
            i = i + 1;
        }
        img
    }

    fn unblur_text(&self, glyph_sets: &Vec<Vec<Image>>, alphabet: &Vec<char>) -> (r: String) {
        let ghost v = self@;
        let ghost gsets = glyph_sets@;
        let ghost alph = alphabet@;
        let chars_count = self.width / CHAR_WIDTH;
        let lines_count = self.height / CHAR_HEIGHT;
        let mut out: Vec<char> = Vec::new();
        let mut sigma: Option<usize> = None;
        let mut lid: usize = 0;
        while lid < lines_count
            invariant
                v == self@,
                gsets == glyph_sets@,
                alph == alphabet@,
                self.wf(),
                glyph_sets@.len() == SIGMA_STEPS,
                forall|s: int|
                    0 <= s < glyph_sets@.len() ==> (#[trigger] glyph_sets@[s])@.len()
                        == alphabet@.len(),
                forall|s: int, i: int|
                    0 <= s < glyph_sets@.len() && 0 <= i < glyph_sets@[s]@.len() ==> (
                    #[trigger] glyph_sets@[s]@[i]).wf() && glyph_sets@[s]@[i].width == CHAR_WIDTH
                        && glyph_sets@[s]@[i].height == CHAR_HEIGHT,
                chars_count == v.width / (CHAR_WIDTH as int),
                lines_count == v.height / (CHAR_HEIGHT as int),
                lid <= lines_count,
                out@ == process(v, gsets, alph, chars_count as int, lid as int * chars_count).0,
                sigma_view(sigma) == process(
                    v,
                    gsets,
                    alph,
                    chars_count as int,
                    lid as int * chars_count,
                ).1,
                sigma matches Some(s) ==> s < SIGMA_STEPS,
            decreases lines_count - lid,
        {
            let mut cid: usize = 0;
            while cid < chars_count
                invariant
                    v == self@,
                    gsets == glyph_sets@,
                    alph == alphabet@,
                    self.wf(),
                    glyph_sets@.len() == SIGMA_STEPS,
                    forall|s: int|
                        0 <= s < glyph_sets@.len() ==> (#[trigger] glyph_sets@[s])@.len()
                            == alphabet@.len(),
                    forall|s: int, i: int|
                        0 <= s < glyph_sets@.len() && 0 <= i < glyph_sets@[s]@.len() ==> (
                        #[trigger] glyph_sets@[s]@[i]).wf() && glyph_sets@[s]@[i].width
                            == CHAR_WIDTH && glyph_sets@[s]@[i].height == CHAR_HEIGHT,
                    chars_count == v.width / (CHAR_WIDTH as int),
                    lines_count == v.height / (CHAR_HEIGHT as int),
                    lid < lines_count,
                    cid <= chars_count,
                    out@ == process(
                        v,
                        gsets,
                        alph,
                        chars_count as int,
                        lid as int * chars_count + cid,
                    ).0,
                    sigma_view(sigma) == process(
                        v,
                        gsets,
                        alph,
                        chars_count as int,
                        lid as int * chars_count + cid,
                    ).1,
                    sigma matches Some(s) ==> s < SIGMA_STEPS,
                decreases chars_count - cid,
            {
                let ghost k = lid as int * chars_count + cid;
                proof {
                    assert((lid + 1) * CHAR_HEIGHT <= lines_count * CHAR_HEIGHT);
                    assert(lines_count * CHAR_HEIGHT <= self.height);
                    assert((cid + 1) * CHAR_WIDTH <= chars_count * CHAR_WIDTH);
                    assert(chars_count * CHAR_WIDTH <= self.width);
                    vstd::arithmetic::div_mod::lemma_fundamental_div_mod_converse(
                        k,
                        chars_count as int,
                        lid as int,
                        cid as int,
                    );
                }
                let result_char: Option<char>;
                match sigma {
                    Some(s) => {
                        result_char = find_character(
                            lid,
                            cid,
                            self,
                            &glyph_sets[s],
                            alphabet,
                            false,
                        );
                    },
                    None => {
                        let mut found: Option<char> = None;
                        let mut s: usize = 0;
                        loop
                            invariant_except_break
                                v == self@,
                                gsets == glyph_sets@,
                                alph == alphabet@,
                                self.wf(),
                                glyph_sets@.len() == SIGMA_STEPS,
                                forall|t: int|
                                    0 <= t < glyph_sets@.len() ==> (#[trigger] glyph_sets@[t])@.len()
                                        == alphabet@.len(),
                                forall|t: int, i: int|
                                    0 <= t < glyph_sets@.len() && 0 <= i < glyph_sets@[t]@.len()
                                        ==> (#[trigger] glyph_sets@[t]@[i]).wf()
                                        && glyph_sets@[t]@[i].width == CHAR_WIDTH
                                        && glyph_sets@[t]@[i].height == CHAR_HEIGHT,
                                0 < lines_count * CHAR_HEIGHT <= self.height,
                                0 < chars_count * CHAR_WIDTH <= self.width,
                                s <= SIGMA_STEPS,
                                found is None,
                                sigma is None,
                                calib_search(v, gsets, alph, 0) == calib_search(
                                    v,
                                    gsets,
                                    alph,
                                    s as int,
                                ),
                            ensures
                                calib_search(v, gsets, alph, 0) is None ==> sigma is None
                                    && found is None,
                                calib_search(v, gsets, alph, 0) matches Some((st, c)) ==> (
                                sigma_view(sigma) == Some(st) && found == Some(c) && 0 <= st
                                    < SIGMA_STEPS),
                            decreases SIGMA_STEPS - s,
                        {
                            if s == SIGMA_STEPS {
                                break ;
                            }
                            let r = find_character(0, 0, self, &glyph_sets[s], alphabet, true);
                            match r {
                                Some(c) => {
                                    sigma = Some(s);
                                    found = Some(c);
                                    break ;
                                },
                                None => {
                                    s = s + 1;
                                },
                            }
                        }
                        result_char = found;
                    },
                }
                if let Some(c) = result_char {
                    out.push(c);
                }
                cid = cid + 1;
            }
            proof {
                assert((lid + 1) as int * chars_count == lid as int * chars_count + chars_count)
                    by (nonlinear_arith);
            }
            lid = lid + 1;
        }
        chars_to_string(&out)
    }
}

} // verus!

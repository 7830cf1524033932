use vstd::prelude::*;

use crate::cell::trimmed_cell;
use crate::raster::{Image, Pixel, CHAR_HEIGHT, CHAR_WIDTH};

verus! {

/// The fixed reference alphabet, in matching order: lowercase and uppercase
/// letters, digits, space, and punctuation. Its order decides ties: of two
/// equally good candidates, the one standing later here wins.
pub open spec fn alphabet_spec() -> Seq<char> {
    seq![
        'a', 'b', 'c', 'd', 'e', 'f', 'g', 'h', 'i', 'j', 'k', 'l', 'm', 'n', 'o', 'p', 'q', 'r',
        's', 't', 'u', 'v', 'w', 'x', 'y', 'z', 'A', 'B', 'C', 'D', 'E', 'F', 'G', 'H', 'I', 'J',
        'K', 'L', 'M', 'N', 'O', 'P', 'Q', 'R', 'S', 'T', 'U', 'V', 'W', 'X', 'Y', 'Z', '0', '1',
        '2', '3', '4', '5', '6', '7', '8', '9', ' ', '!', '.', ':', '(', ')', '@', '#', '$', '%',
        '^', '&', '*', '_', '+', '=', '-', '{', '}', '[', ']', '<', '>', ',', '/', '?', '\'', '"',
        '\\', '|',
    ]
}

/// The reference alphabet as an indexable vector.
pub fn alphabet() -> (r: Vec<char>)
    ensures
        r@ == alphabet_spec(),
{
    let r: Vec<char> = vec![
        'a', 'b', 'c', 'd', 'e', 'f', 'g', 'h', 'i', 'j', 'k', 'l', 'm', 'n', 'o', 'p', 'q', 'r',
        's', 't', 'u', 'v', 'w', 'x', 'y', 'z', 'A', 'B', 'C', 'D', 'E', 'F', 'G', 'H', 'I', 'J',
        'K', 'L', 'M', 'N', 'O', 'P', 'Q', 'R', 'S', 'T', 'U', 'V', 'W', 'X', 'Y', 'Z', '0', '1',
        '2', '3', '4', '5', '6', '7', '8', '9', ' ', '!', '.', ':', '(', ')', '@', '#', '$', '%',
        '^', '&', '*', '_', '+', '=', '-', '{', '}', '[', ']', '<', '>', ',', '/', '?', '\'', '"',
        '\\', '|',
    ];
    proof {
        assert(r@ =~= alphabet_spec());
    }
    r
}

pub open spec fn abs_val(x: int) -> int {
    if x < 0 {
        -x
    } else {
        x
    }
}

/// The per-pixel distance: the four signed channel differences are summed
/// first, and the absolute value is taken of that sum (not of each channel).
pub open spec fn pdist(a: Pixel, b: Pixel) -> int {
    abs_val(
        (a.r as int - b.r as int) + (a.g as int - b.g as int) + (a.b as int - b.b as int) + (
        a.a as int - b.a as int),
    )
}

/// Strict matching allows a distance of at most 5, loose of at most 10.
pub open spec fn tolerance(strict: bool) -> int {
    if strict {
        5
    } else {
        10
    }
}

pub open spec fn pixel_matches(a: Pixel, b: Pixel, strict: bool) -> bool {
    pdist(a, b) <= tolerance(strict)
}

/// How many of the first `k` pixel pairs of `g` and `c` match.
pub open spec fn count_upto(g: Seq<Pixel>, c: Seq<Pixel>, strict: bool, k: int) -> int
    decreases k,
{
    if k <= 0 {
        0
    } else {
        count_upto(g, c, strict, k - 1) + if pixel_matches(g[k - 1], c[k - 1], strict) {
            1int
        } else {
            0int
        }
    }
}

pub open spec fn match_count(g: Seq<Pixel>, c: Seq<Pixel>, strict: bool) -> int {
    count_upto(g, c, strict, g.len() as int)
}

/// The match percentage: matching pixels over total pixels, in integer
/// (truncating) arithmetic.
pub open spec fn match_percent(g: Seq<Pixel>, c: Seq<Pixel>, strict: bool) -> int {
    match_count(g, c, strict) * 100 / (g.len() as int)
}

/// Candidate `i` can match the cell only with exactly equal trimmed pixel
/// counts (and something to compare; the empty-against-empty pairing is
/// resolved separately, to the space character).
pub open spec fn is_candidate(cell: Seq<Pixel>, gcells: Seq<Seq<Pixel>>, i: int) -> bool {
    gcells[i].len() == cell.len() && cell.len() > 0
}

/// The best guess over the first `n` alphabet candidates, processed in
/// alphabet order; a later candidate replaces the current best whenever its
/// percentage is at least as high, so ties go to the last candidate.
pub open spec fn best_guess(
    cell: Seq<Pixel>,
    gcells: Seq<Seq<Pixel>>,
    alph: Seq<char>,
    strict: bool,
    n: int,
) -> Option<(char, int)>
    decreases n,
{
    if n <= 0 {
        None
    } else {
        let prev = best_guess(cell, gcells, alph, strict, n - 1);
        if is_candidate(cell, gcells, n - 1) {
            let pc = match_percent(gcells[n - 1], cell, strict);
            match prev {
                None => Some((alph[n - 1], pc)),
                Some((c0, p0)) => if pc >= p0 {
                    Some((alph[n - 1], pc))
                } else {
                    prev
                },
            }
        } else {
            prev
        }
    }
}

/// Strict acceptance needs the full 100 percent; loose acceptance needs at
/// least 70.
pub open spec fn accepts(strict: bool, p: int) -> bool {
    if strict {
        p >= 100
    } else {
        p >= 70
    }
}

/// The character reported for a cell, given the trimmed cells of every
/// blurred reference glyph: the space character when both the cell and some
/// glyph trim to nothing; otherwise the best candidate's character, if its
/// percentage reaches the tolerance mode's acceptance bar; otherwise none.
pub open spec fn find_char_spec(
    cell: Seq<Pixel>,
    gcells: Seq<Seq<Pixel>>,
    alph: Seq<char>,
    strict: bool,
) -> Option<char> {
    if cell.len() == 0 && (exists|i: int| 0 <= i < gcells.len() && gcells[i].len() == 0) {
        Some(' ')
    } else {
        match best_guess(cell, gcells, alph, strict, gcells.len() as int) {
            Some((c, p)) => if accepts(strict, p) {
                Some(c)
            } else {
                None
            },
            None => None,
        }
    }
}

/// The trimmed content of each glyph raster (each one cell in size).
pub open spec fn glyph_cells(gs: Seq<Image>) -> Seq<Seq<Pixel>> {
    Seq::new(gs.len(), |i: int| trimmed_cell(gs[i]@, 0, 0))
}

spec fn guess_view(o: Option<(char, usize)>) -> Option<(char, int)> {
    match o {
        None => None,
        Some((c, p)) => Some((c, p as int)),
    }
}

proof fn lemma_count_upto_bounds(g: Seq<Pixel>, c: Seq<Pixel>, strict: bool, k: int)
    requires
        0 <= k,
    ensures
        0 <= count_upto(g, c, strict, k) <= k,
    decreases k,
{
    if k > 0 {
        lemma_count_upto_bounds(g, c, strict, k - 1);
    }
}

proof fn lemma_self_count(s: Seq<Pixel>, strict: bool, k: int)
    requires
        0 <= k <= s.len(),
    ensures
        count_upto(s, s, strict, k) == k,
    decreases k,
{
    if k > 0 {
        lemma_self_count(s, strict, k - 1);
    }
}

/// A glyph held against itself matches on every pixel: the percentage is the
/// full 100, which both tolerance modes accept.
pub proof fn lemma_self_match(s: Seq<Pixel>, strict: bool)
    requires
        s.len() > 0,
    ensures
        match_percent(s, s, strict) == 100,
        accepts(strict, match_percent(s, s, strict)),
{
    lemma_self_count(s, strict, s.len() as int);
    vstd::arithmetic::div_mod::lemma_div_multiples_vanish(100, s.len() as int);
}

/// Match percentages always lie between 0 and 100.
pub proof fn lemma_percent_bounds(g: Seq<Pixel>, c: Seq<Pixel>, strict: bool)
    requires
        g.len() > 0,
    ensures
        0 <= match_percent(g, c, strict) <= 100,
{
    let n = g.len() as int;
    lemma_count_upto_bounds(g, c, strict, n);
    vstd::arithmetic::div_mod::lemma_div_pos_is_pos(match_count(g, c, strict) * 100, n);
    vstd::arithmetic::div_mod::lemma_div_is_ordered(match_count(g, c, strict) * 100, n * 100, n);
    vstd::arithmetic::div_mod::lemma_div_multiples_vanish(100, n);
}

/// What the best guess over the first `n` candidates is: nothing when there
/// is no candidate, else some candidate's character with its percentage, and
/// no candidate does better.
proof fn lemma_best_guess_char(
    cell: Seq<Pixel>,
    gcells: Seq<Seq<Pixel>>,
    alph: Seq<char>,
    strict: bool,
    n: int,
)
    requires
        0 <= n <= gcells.len(),
    ensures
        best_guess(cell, gcells, alph, strict, n) is None ==> forall|i: int|
            0 <= i < n ==> !is_candidate(cell, gcells, i),
        best_guess(cell, gcells, alph, strict, n) matches Some((c, p)) ==> ((exists|i: int|
            0 <= i < n && is_candidate(cell, gcells, i) && c == alph[i] && p == match_percent(
                gcells[i],
                cell,
                strict,
            )) && (forall|i: int|
            0 <= i < n && is_candidate(cell, gcells, i) ==> match_percent(gcells[i], cell, strict)
                <= p)),
    decreases n,
{
    if n > 0 {
        lemma_best_guess_char(cell, gcells, alph, strict, n - 1);
    }
}

/// A cell identical to some candidate's trimmed glyph is always resolved:
/// that candidate matches fully, so the winning percentage is exactly 100
/// and passes even the strict acceptance bar.
pub proof fn lemma_self_glyph_accepted(
    cell: Seq<Pixel>,
    gcells: Seq<Seq<Pixel>>,
    alph: Seq<char>,
    strict: bool,
    i0: int,
)
    requires
        0 <= i0 < gcells.len(),
        gcells[i0] == cell,
        cell.len() > 0,
    ensures
        best_guess(cell, gcells, alph, strict, gcells.len() as int) matches Some((c, p)) && p
            == 100,
        find_char_spec(cell, gcells, alph, strict) is Some,
{
    let n = gcells.len() as int;
    lemma_self_match(cell, strict);
    lemma_best_guess_char(cell, gcells, alph, strict, n);
    assert(is_candidate(cell, gcells, i0));
    match best_guess(cell, gcells, alph, strict, n) {
        None => {
            assert(false);
        },
        Some((c, p)) => {
            assert(p >= match_percent(gcells[i0], cell, strict));
            let iw = choose|i: int|
                0 <= i < n && is_candidate(cell, gcells, i) && c == alph[i] && p == match_percent(
                    gcells[i],
                    cell,
                    strict,
                );
            lemma_percent_bounds(gcells[iw], cell, strict);
            assert(p == 100);
        },
    }
}

/// Two empty trimmed sequences always resolve to the space character,
/// whatever the tolerance mode.
pub proof fn lemma_empty_resolves_space(
    cell: Seq<Pixel>,
    gcells: Seq<Seq<Pixel>>,
    alph: Seq<char>,
    strict: bool,
    i: int,
)
    requires
        cell.len() == 0,
        0 <= i < gcells.len(),
        gcells[i].len() == 0,
    ensures
        find_char_spec(cell, gcells, alph, strict) == Some(' '),
{
}

proof fn lemma_tie_break_aux(
    cell: Seq<Pixel>,
    gcells: Seq<Seq<Pixel>>,
    alph: Seq<char>,
    strict: bool,
    j: int,
    n: int,
)
    requires
        0 <= j < n <= gcells.len(),
        is_candidate(cell, gcells, j),
        forall|i: int|
            0 <= i < n && is_candidate(cell, gcells, i) ==> match_percent(gcells[i], cell, strict)
                <= match_percent(gcells[j], cell, strict),
        forall|i: int|
            j < i < n && is_candidate(cell, gcells, i) ==> match_percent(gcells[i], cell, strict)
                < match_percent(gcells[j], cell, strict),
    ensures
        best_guess(cell, gcells, alph, strict, n) == Some(
            (alph[j], match_percent(gcells[j], cell, strict)),
        ),
    decreases n,
{
    let pj = match_percent(gcells[j], cell, strict);
    if n - 1 == j {
        lemma_best_guess_char(cell, gcells, alph, strict, n - 1);
        match best_guess(cell, gcells, alph, strict, n - 1) {
            None => {},
            Some((c0, p0)) => {
                assert(p0 <= pj);
            },
        }
    } else {
        lemma_tie_break_aux(cell, gcells, alph, strict, j, n - 1);
    }
}

/// The tie-break contract: among the candidates, let `j` be the last one
/// whose percentage is maximal (every candidate scores at most as much, and
/// every later candidate scores strictly less). Then the best guess is
/// exactly candidate `j`'s character with candidate `j`'s percentage — on a
/// tie, the character appearing later in alphabet order wins.
pub proof fn lemma_tie_break_last(
    cell: Seq<Pixel>,
    gcells: Seq<Seq<Pixel>>,
    alph: Seq<char>,
    strict: bool,
    j: int,
)
    requires
        0 <= j < gcells.len(),
        is_candidate(cell, gcells, j),
        forall|i: int|
            0 <= i < gcells.len() && is_candidate(cell, gcells, i) ==> match_percent(
                gcells[i],
                cell,
                strict,
            ) <= match_percent(gcells[j], cell, strict),
        forall|i: int|
            j < i < gcells.len() && is_candidate(cell, gcells, i) ==> match_percent(
                gcells[i],
                cell,
                strict,
            ) < match_percent(gcells[j], cell, strict),
    ensures
        best_guess(cell, gcells, alph, strict, gcells.len() as int) == Some(
            (alph[j], match_percent(gcells[j], cell, strict)),
        ),
{
    lemma_tie_break_aux(cell, gcells, alph, strict, j, gcells.len() as int);
}

/// Scans cell (`lid`, `cid`) of `img` against every reference glyph, already
/// blurred at the strength under trial, and reports the accepted character,
/// if any: the space character when the cell and some glyph both trim to
/// nothing, otherwise the best-matching candidate of equal trimmed size,
/// ties resolved towards the later alphabet position, accepted only past the
/// tolerance mode's bar.
pub fn find_character(
    lid: usize,
    cid: usize,
    img: &Image,
    glyphs: &Vec<Image>,
    alphabet: &Vec<char>,
    strict: bool,
) -> (r: Option<char>)
    requires
        img.wf(),
        (lid + 1) * CHAR_HEIGHT <= img.height,
        (cid + 1) * CHAR_WIDTH <= img.width,
        glyphs@.len() == alphabet@.len(),
        forall|i: int|
            0 <= i < glyphs@.len() ==> (#[trigger] glyphs@[i]).wf() && glyphs@[i].width
                == CHAR_WIDTH && glyphs@[i].height == CHAR_HEIGHT,
    ensures
        r == find_char_spec(
            trimmed_cell(img@, lid as int, cid as int),
            glyph_cells(glyphs@),
            alphabet@,
            strict,
        ),
{
    let ghost gc = glyph_cells(glyphs@);
    let cell_t = img.extract_cell(lid, cid);
    let ghost cellv = cell_t@;
    proof {
        crate::cell::lemma_trimmed_cell_len(img@, lid as int, cid as int);
    }
    let mut best: Option<(char, usize)> = None;
    let mut i: usize = 0;
    while i < glyphs.len()
        invariant
            img.wf(),
            glyphs@.len() == alphabet@.len(),
            forall|k: int|
                0 <= k < glyphs@.len() ==> (#[trigger] glyphs@[k]).wf() && glyphs@[k].width
                    == CHAR_WIDTH && glyphs@[k].height == CHAR_HEIGHT,
            gc == glyph_cells(glyphs@),
            cellv == cell_t@,
            cellv == trimmed_cell(img@, lid as int, cid as int),
            cellv.len() <= CHAR_WIDTH * CHAR_HEIGHT,
            i <= glyphs@.len(),
            guess_view(best) == best_guess(cellv, gc, alphabet@, strict, i as int),
            cellv.len() == 0 ==> forall|j: int| 0 <= j < i ==> gc[j].len() != 0,
        decreases glyphs@.len() - i,
    {
        let glyph_t = glyphs[i].extract_cell(0, 0);
        proof {
            assert(glyph_t@ == gc[i as int]);
        }
        if glyph_t.len() == 0 && cell_t.len() == 0 {
            proof {
                assert(0 <= i < gc.len() && gc[i as int].len() == 0);
                assert(exists|j: int|
                    0 <= j < glyph_cells(glyphs@).len() && glyph_cells(glyphs@)[j].len() == 0) by {
                    assert(0 <= (i as int) < glyph_cells(glyphs@).len() && glyph_cells(
                        glyphs@,
                    )[i as int].len() == 0);
                }
            }
            return Some(' ');
        }
        if glyph_t.len() == cell_t.len() && cell_t.len() > 0 {
            let n = cell_t.len();
            let mut commun: usize = 0;
            let mut k: usize = 0;
            while k < n
                invariant
                    n == cell_t@.len(),
                    n == glyph_t@.len(),
                    k <= n,
                    commun == count_upto(glyph_t@, cell_t@, strict, k as int),
                    commun <= k,
                decreases n - k,
            {
                let a = glyph_t[k];
                let b = cell_t[k];
                let mut d: isize = (a.r as isize - b.r as isize) + (a.g as isize - b.g as isize) + (
                a.b as isize - b.b as isize) + (a.a as isize - b.a as isize);
                if d < 0 {
                    d = -d;
                }
                proof {
                    assert(d == pdist(glyph_t@[k as int], cell_t@[k as int]));
                }
                if (strict && d <= 5) || (!strict && d <= 10) {
                    commun = commun + 1;
                }
                k = k + 1;
            }
            let pc = commun * 100 / n;
            proof {
                assert(commun * 100 == match_count(glyph_t@, cell_t@, strict) * 100);
                assert(pc == match_percent(gc[i as int], cellv, strict));
            }
            let letter = alphabet[i];
            match best {
                None => {
                    best = Some((letter, pc));
                },
                Some((_c0, p0)) => {
                    if pc >= p0 {
                        best = Some((letter, pc));
                    }
                },
            }
        }
        i = i + 1;
    }
    proof {
        if cellv.len() == 0 {
            assert(forall|j: int| 0 <= j < gc.len() ==> gc[j].len() != 0);
        }
    }
    match best {
        Some((letter, pc)) => {
            if (strict && pc >= 100) || (!strict && pc >= 70) {
                Some(letter)
            } else {
                None
            }
        },
        None => None,
    }
}

} // verus!

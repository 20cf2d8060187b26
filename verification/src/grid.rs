use vstd::prelude::*;
use core::marker::PhantomData;
use ndarray::Array2;

verus! {

/// A dense two-dimensional array of 64-bit words, stored in an
/// `ndarray::Array2`.
///
/// Verus does not look inside: [`grid_words`] names what the array holds,
/// and the four calls into `ndarray` below say what they do to it.
#[derive(Debug)]
#[verifier::external_body]
pub struct WordGrid {
    cells: Array2<u64>,
}

/// What the array holds: the word at each index pair `(i, j)` inside its
/// shape, and nothing elsewhere.
pub uninterp spec fn grid_words(g: WordGrid) -> Map<(int, int), u64>;

/// The index pairs of a `d0` by `d1` rectangle.
pub open spec fn rect(d0: int, d1: int) -> Set<(int, int)> {
    Set::new(|k: (int, int)| 0 <= k.0 < d0 && 0 <= k.1 < d1)
}

/// The cells of a `d0` by `d1` rectangle that all hold `elem`.
pub open spec fn filled<T>(d0: int, d1: int, elem: T) -> Map<(int, int), T> {
    Map::new(|k: (int, int)| rect(d0, d1).contains(k), |k: (int, int)| elem)
}

/// The largest cell count a grid may have: with eight bytes to a cell, an
/// array of that many cells stays within `isize::MAX` bytes.
pub open spec fn max_cells() -> int {
    usize::MAX as int / 16
}

/// Whether a `d0` by `d1` array can be allocated. An axis of length zero
/// counts as one, as it does where the array is made.
pub open spec fn grid_fits(d0: int, d1: int) -> bool {
    (if d0 == 0 {
        1
    } else {
        d0
    }) * (if d1 == 0 {
        1
    } else {
        d1
    }) <= max_cells()
}

/// `Array2::from_elem`: an array of shape `(d0, d1)` with `elem` in every
/// cell. The call panics where the cell count, zero-length axes left out, or
/// the byte size exceeds `isize::MAX`; `grid_fits` keeps below both.
#[verifier::external_body]
fn words_from_elem(d0: usize, d1: usize, elem: u64) -> (g: WordGrid)
    requires
        grid_fits(d0 as int, d1 as int),
    ensures
        grid_words(g) == filled(d0 as int, d1 as int, elem),
{
    WordGrid { cells: Array2::from_elem((d0, d1), elem) }
}

/// `ArrayBase::get`: the word at `(i, j)`, or `None` where the index lies
/// outside the array.
#[verifier::external_body]
fn words_get(g: &WordGrid, i: usize, j: usize) -> (r: Option<&u64>)
    ensures
        r is Some <==> grid_words(*g).dom().contains((i as int, j as int)),
        r is Some ==> *r->0 == grid_words(*g)[(i as int, j as int)],
{
    g.cells.get((i, j))
}

/// `ArrayBase::get_mut`: the word at `(i, j)` for writing, or `None` where
/// the index lies outside the array. Whatever is written through the
/// reference is what the array then holds there; no other word changes.
#[verifier::external_body]
fn words_get_mut(g: &mut WordGrid, i: usize, j: usize) -> (r: Option<&mut u64>)
    ensures
        r is Some <==> grid_words(*old(g)).dom().contains((i as int, j as int)),
        r is None ==> grid_words(*final(g)) == grid_words(*old(g)),
        r is Some ==> *r->0 == grid_words(*old(g))[(i as int, j as int)] && grid_words(*final(g))
            == grid_words(*old(g)).insert((i as int, j as int), *final(r->0)),
{
    g.cells.get_mut((i, j))
}

/// `ArrayBase::clone`: an array of the same shape that holds the same words.
#[verifier::external_body]
fn words_clone(g: &WordGrid) -> (copy: WordGrid)
    ensures
        grid_words(copy) == grid_words(*g),
{
    WordGrid { cells: g.cells.clone() }
}

/// A type whose values a [`Grid`] can hold, each packed into one word.
pub trait Cell: Sized + Copy {
    /// The word that stands for the cell.
    spec fn pack(self) -> u64;

    /// The cell that a word stands for.
    spec fn unpack(word: u64) -> Self;

    /// The cell a fresh grid is filled with.
    spec fn blank() -> Self;

    /// Packing loses nothing.
    proof fn lemma_unpack_pack(self)
        ensures
            Self::unpack(self.pack()) == self,
    ;

    /// The word that stands for the cell.
    fn to_word(self) -> (word: u64)
        ensures
            word == self.pack(),
    ;

    /// The cell that a word stands for.
    fn from_word(word: u64) -> (cell: Self)
        ensures
            cell == Self::unpack(word),
    ;

    /// The cell a fresh grid is filled with.
    fn blank_cell() -> (cell: Self)
        ensures
            cell == Self::blank(),
    ;
}

/// The word that stands for a transparent pixel.
pub open spec fn transparent_word() -> u64 {
    0x100
}

impl Cell for Option<u8> {
    /// A palette index is its own word; a transparent pixel is the first
    /// word that is no index.
    open spec fn pack(self) -> u64 {
        match self {
            Some(index) => index as u64,
            None => transparent_word(),
        }
    }

    open spec fn unpack(word: u64) -> Self {
        if word < transparent_word() {
            Some(word as u8)
        } else {
            None
        }
    }

    open spec fn blank() -> Self {
        None
    }

    proof fn lemma_unpack_pack(self) {
    }

    fn to_word(self) -> (word: u64) {
        match self {
            Some(index) => index as u64,
            None => 0x100,
        }
    }

    fn from_word(word: u64) -> (cell: Self) {
        if word < 0x100 {
            Some(word as u8)
        } else {
            None
        }
    }

    fn blank_cell() -> (cell: Self) {
        None
    }
}

/// A dense two-dimensional array of cells. Cell `(i, j)` is the one at
/// index `i` of the first axis and index `j` of the second.
#[derive(Debug)]
pub struct Grid<T> {
    words: WordGrid,
    kind: PhantomData<T>,
}

impl<T: Cell> Clone for Grid<T> {
    /// A grid of the same shape that holds the same cells.
    fn clone(&self) -> (copy: Self)
        ensures
            copy.cells() == self.cells(),
    {
        Grid { words: words_clone(&self.words), kind: PhantomData }
    }
}

impl<T: Cell> Grid<T> {
    /// What the grid holds: the cell at each index pair inside its shape.
    pub closed spec fn cells(self) -> Map<(int, int), T> {
        grid_words(self.words).map_values(|word: u64| T::unpack(word))
    }

    /// Whether the grid is a `d0` by `d1` rectangle.
    pub open spec fn has_shape(self, d0: int, d1: int) -> bool {
        self.cells().dom() == rect(d0, d1)
    }

    /// Whether a `d0` by `d1` grid can be allocated.
    pub fn fits(d0: usize, d1: usize) -> (b: bool)
        ensures
            b == grid_fits(d0 as int, d1 as int),
    {
        let a: usize = if d0 == 0 {
            1
        } else {
            d0
        };
        let c: usize = if d1 == 0 {
            1
        } else {
            d1
        };
        let limit: usize = usize::MAX / 16;
        let per_row: usize = limit / c;
        proof {
            lemma_product_bound(a as int, c as int, limit as int);
        }
        a <= per_row
    }

    /// A `d0` by `d1` grid with `elem` in every cell.
    pub fn new(d0: usize, d1: usize, elem: T) -> (g: Self)
        requires
            grid_fits(d0 as int, d1 as int),
        ensures
            g.cells() == filled(d0 as int, d1 as int, elem),
            g.has_shape(d0 as int, d1 as int),
    {
        let words = words_from_elem(d0, d1, elem.to_word());
        let g = Grid { words, kind: PhantomData };
        proof {
            elem.lemma_unpack_pack();
            assert(g.cells() =~= filled(d0 as int, d1 as int, elem));
            assert(g.cells().dom() =~= rect(d0 as int, d1 as int));
        }
        g
    }

    /// A `d0` by `d1` grid with `elem` in every cell, or `None` where such a
    /// grid cannot be allocated.
    pub fn filled_with(d0: usize, d1: usize, elem: T) -> (r: Option<Self>)
        ensures
            r is Some <==> grid_fits(d0 as int, d1 as int),
            r is Some ==> r->0.cells() == filled(d0 as int, d1 as int, elem),
            r is Some ==> r->0.has_shape(d0 as int, d1 as int),
    {
        if Self::fits(d0, d1) {
            Some(Self::new(d0, d1, elem))
        } else {
            None
        }
    }

    /// The cell at `(i, j)`, or `None` outside the grid.
    pub fn get(&self, i: usize, j: usize) -> (r: Option<T>)
        ensures
            r == if self.cells().dom().contains((i as int, j as int)) {
                Some(self.cells()[(i as int, j as int)])
            } else {
                None
            },
    {
        match words_get(&self.words, i, j) {
            Some(word) => Some(T::from_word(*word)),
            None => None,
        }
    }

    /// Stores `v` at `(i, j)` and says whether the grid has such a cell; a
    /// grid without it is left as it was.
    pub fn set(&mut self, i: usize, j: usize, v: T) -> (done: bool)
        ensures
            done == old(self).cells().dom().contains((i as int, j as int)),
            done ==> final(self).cells() == old(self).cells().insert((i as int, j as int), v),
            !done ==> final(self).cells() == old(self).cells(),
            final(self).cells().dom() == old(self).cells().dom(),
    {
        let word: u64 = v.to_word();
        let done: bool = match words_get_mut(&mut self.words, i, j) {
            Some(place) => {
                *place = word;
                true
            },
            None => false,
        };
        proof {
            v.lemma_unpack_pack();
            assert(self.cells().dom() =~= old(self).cells().dom());
            if done {
                assert(self.cells() =~= old(self).cells().insert((i as int, j as int), v));
            }
        }
        done
    }
}

/// A grid of at most 8192 by 8192 cells can be allocated on every machine.
pub proof fn lemma_small_grid_fits(d0: int, d1: int)
    requires
        0 <= d0 <= 0x2000,
        0 <= d1 <= 0x2000,
    ensures
        grid_fits(d0, d1),
{
    let a = if d0 == 0 {
        1
    } else {
        d0
    };
    let c = if d1 == 0 {
        1
    } else {
        d1
    };
    assert(a * c <= 0x2000 * 0x2000) by (nonlinear_arith)
        requires
            0 < a <= 0x2000,
            0 < c <= 0x2000,
    ;
    assert(max_cells() >= 0xFFF_FFFF);
}

/// A byte with a number above it, 256 times over: the byte is the remainder
/// by 256 and the number the quotient.
pub proof fn lemma_low_byte(low: int, high: int)
    requires
        0 <= low < 0x100,
        0 <= high,
    ensures
        (low + 0x100 * high) % 0x100 == low,
        (low + 0x100 * high) / 0x100 == high,
{
}

/// For positive `c`, `a * c <= limit` exactly when `a <= limit / c`.
proof fn lemma_product_bound(a: int, c: int, limit: int)
    requires
        0 < c,
        0 <= a,
        0 <= limit,
    ensures
        (a <= limit / c) <==> (a * c <= limit),
{
    vstd::arithmetic::div_mod::lemma_fundamental_div_mod(limit, c);
    vstd::arithmetic::div_mod::lemma_mod_bound(limit, c);
    if a <= limit / c {
        vstd::arithmetic::mul::lemma_mul_inequality(a, limit / c, c);
        assert(c * (limit / c) == (limit / c) * c) by (nonlinear_arith);
    } else {
        vstd::arithmetic::mul::lemma_mul_inequality(limit / c + 1, a, c);
        assert((limit / c + 1) * c == c * (limit / c) + c) by (nonlinear_arith);
    }
}

} // verus!

//! The piece catalog: a static, immutable table of four-cell piece variants.
//!
//! Each variant is one fixed orientation of a shape. Its cells are the anchor
//! cell plus three displacements; a well-formed variant covers four pairwise
//! distinct cells.

use vstd::prelude::*;

use crate::SolverError;

verus! {

/// Cosmetic grouping of piece variants; never consulted for validity.
#[derive(Clone, Copy, PartialEq, Eq, Structural, Debug)]
pub enum Color {
    T,
    S,
    Z,
    O,
    I,
    L,
    J,
}

/// The CSS color name under which each category is drawn.
pub open spec fn color_css_spec(c: Color) -> Seq<char> {
    match c {
        Color::T => "purple"@,
        Color::S => "green"@,
        Color::Z => "red"@,
        Color::O => "yellow"@,
        Color::I => "cyan"@,
        Color::L => "orange"@,
        Color::J => "blue"@,
    }
}

impl Color {
    /// The CSS color name a presentation layer paints this category with.
    pub fn paint(&self) -> (r: &'static str)
        ensures
            r@ == color_css_spec(*self),
    {
        match self {
            Color::T => "purple",
            Color::S => "green",
            Color::Z => "red",
            Color::O => "yellow",
            Color::I => "cyan",
            Color::L => "orange",
            Color::J => "blue",
        }
    }
}

/// One fixed orientation of a four-cell shape. The anchor cell is implicit;
/// `offsets` holds the three (row, column) displacements of the other cells.
#[derive(Clone, Copy, PartialEq, Eq, Debug)]
pub struct PieceVariant {
    /// Stable index of this variant in its catalog; the public identifier
    /// recorded for a placement in solutions.
    pub id: usize,
    /// The three (row, column) displacements from the anchor cell.
    pub offsets: ((i8, i8), (i8, i8), (i8, i8)),
    /// Cosmetic category of the variant.
    pub color: Color,
}

/// The k-th absolute cell (row, column) covered by `v` anchored at
/// `(ai, aj)`, for `0 <= k < 4`; cell 0 is the anchor itself.
pub open spec fn footprint_cell_spec(v: PieceVariant, ai: int, aj: int, k: int) -> (int, int) {
    if k == 0 {
        (ai, aj)
    } else if k == 1 {
        (ai + v.offsets.0.0 as int, aj + v.offsets.0.1 as int)
    } else if k == 2 {
        (ai + v.offsets.1.0 as int, aj + v.offsets.1.1 as int)
    } else {
        (ai + v.offsets.2.0 as int, aj + v.offsets.2.1 as int)
    }
}

/// A variant is well formed when its four footprint cells are pairwise
/// distinct, wherever it is anchored.
pub open spec fn variant_wf(v: PieceVariant) -> bool {
    &&& v.offsets.0 != (0i8, 0i8)
    &&& v.offsets.1 != (0i8, 0i8)
    &&& v.offsets.2 != (0i8, 0i8)
    &&& v.offsets.0 != v.offsets.1
    &&& v.offsets.0 != v.offsets.2
    &&& v.offsets.1 != v.offsets.2
}

/// Distinctness of the relative offsets carries over to the absolute
/// footprint cells at any anchor.
pub proof fn lemma_variant_cells_distinct(v: PieceVariant, ai: int, aj: int, k1: int, k2: int)
    requires
        variant_wf(v),
        0 <= k1 < 4,
        0 <= k2 < 4,
        k1 != k2,
    ensures
        footprint_cell_spec(v, ai, aj, k1) != footprint_cell_spec(v, ai, aj, k2),
{
}

/// A catalog is well formed when every entry is a well-formed variant whose
/// id equals its position.
pub open spec fn catalog_wf(cat: Seq<PieceVariant>) -> bool {
    forall|p: int|
        0 <= p < cat.len() ==> variant_wf(#[trigger] cat[p]) && cat[p].id == p
}

/// The immutable table of playable piece variants, in ascending id order.
pub struct Catalog {
    variants: Vec<PieceVariant>,
}

impl View for Catalog {
    type V = Seq<PieceVariant>;

    closed spec fn view(&self) -> Seq<PieceVariant> {
        self.variants@
    }
}

/// Whether the four footprint cells of `v` are pairwise distinct.
fn variant_ok(v: &PieceVariant) -> (r: bool)
    ensures
        r == variant_wf(*v),
{
    let (a, b, c) = v.offsets;
    (a.0 != 0 || a.1 != 0) && (b.0 != 0 || b.1 != 0) && (c.0 != 0 || c.1 != 0) && (a.0 != b.0
        || a.1 != b.1) && (a.0 != c.0 || a.1 != c.1) && (b.0 != c.0 || b.1 != c.1)
}

impl Catalog {
    /// The catalog invariant: well-formed variants with ids in table order.
    pub open spec fn wf(&self) -> bool {
        catalog_wf(self@)
    }

    /// Validates and adopts a table of variants. Rejects, as a configuration
    /// error, a table with an ill-formed variant or an id out of order.
    pub fn new(variants: Vec<PieceVariant>) -> (r: Result<Catalog, SolverError>)
        ensures
            match r {
                Ok(c) => c@ == variants@ && c.wf(),
                Err(e) => e == SolverError::Configuration && !catalog_wf(variants@),
            },
    {
        let n = variants.len();
        let mut p: usize = 0;
        while p < n
            invariant
                n == variants@.len(),
                p <= n,
                forall|q: int|
                    0 <= q < p ==> variant_wf(#[trigger] variants@[q]) && variants@[q].id == q,
            decreases n - p,
        {
            let v = variants[p];
            if v.id != p || !variant_ok(&v) {
                proof {
                    assert(!(variant_wf(variants@[p as int]) && variants@[p as int].id
                        == p as int));
                }
                return Err(SolverError::Configuration);
            }
            p += 1;
        }
        Ok(Catalog { variants })
    }

    /// The full ordered table, ascending by id; stable iteration order.
    pub fn all_variants(&self) -> (r: &Vec<PieceVariant>)
        ensures
            r@ == self@,
    {
        &self.variants
    }

    /// How many variants the catalog holds.
    pub fn len(&self) -> (n: usize)
        ensures
            n == self@.len(),
    {
        self.variants.len()
    }

    /// The variant with id `p`.
    pub fn get(&self, p: usize) -> (v: &PieceVariant)
        requires
            p < self@.len(),
        ensures
            *v == self@[p as int],
    {
        &self.variants[p]
    }

    /// The standard table: every playable orientation of the seven
    /// four-cell shapes, nineteen variants in all, ids ascending.
    pub fn standard() -> (c: Catalog)
        ensures
            c@ == standard_catalog(),
            c.wf(),
    {
        let mut v: Vec<PieceVariant> = Vec::new();
        v.push(PieceVariant { id: 0, offsets: ((0, 1), (-1, 1), (-1, 2)), color: Color::S });
        v.push(PieceVariant { id: 1, offsets: ((1, 0), (1, 1), (2, 1)), color: Color::S });
        v.push(PieceVariant { id: 2, offsets: ((0, 1), (1, 1), (1, 2)), color: Color::Z });
        v.push(PieceVariant { id: 3, offsets: ((0, 1), (1, 0), (-1, 1)), color: Color::Z });
        v.push(PieceVariant { id: 4, offsets: ((0, 1), (0, 2), (1, 1)), color: Color::T });
        v.push(PieceVariant { id: 5, offsets: ((1, 0), (1, 1), (2, 0)), color: Color::T });
        v.push(PieceVariant { id: 6, offsets: ((0, 1), (-1, 1), (0, 2)), color: Color::T });
        v.push(PieceVariant { id: 7, offsets: ((-1, 1), (0, 1), (1, 1)), color: Color::T });
        v.push(PieceVariant { id: 8, offsets: ((0, 1), (-1, 1), (-2, 1)), color: Color::J });
        v.push(PieceVariant { id: 9, offsets: ((0, 1), (0, 2), (1, 2)), color: Color::J });
        v.push(PieceVariant { id: 10, offsets: ((1, 0), (0, 1), (2, 0)), color: Color::J });
        v.push(PieceVariant { id: 11, offsets: ((1, 0), (1, 1), (1, 2)), color: Color::J });
        v.push(PieceVariant { id: 12, offsets: ((1, 0), (2, 0), (2, 1)), color: Color::L });
        v.push(PieceVariant { id: 13, offsets: ((0, 1), (0, 2), (-1, 2)), color: Color::L });
        v.push(PieceVariant { id: 14, offsets: ((0, 1), (1, 1), (2, 1)), color: Color::L });
        v.push(PieceVariant { id: 15, offsets: ((0, 1), (0, 2), (1, 0)), color: Color::L });
        v.push(PieceVariant { id: 16, offsets: ((1, 0), (2, 0), (3, 0)), color: Color::I });
        v.push(PieceVariant { id: 17, offsets: ((0, 1), (0, 2), (0, 3)), color: Color::I });
        v.push(PieceVariant { id: 18, offsets: ((0, 1), (1, 0), (1, 1)), color: Color::O });
        proof {
            assert(v@ =~= standard_catalog());
            lemma_standard_catalog_wf();
        }
        Catalog { variants: v }
    }
}

/// The entry of the standard catalog at position `p`.
pub open spec fn std_variant(p: int) -> PieceVariant {
    if p == 0 {
        PieceVariant { id: 0, offsets: ((0i8, 1i8), (-1i8, 1i8), (-1i8, 2i8)), color: Color::S }
    } else if p == 1 {
        PieceVariant { id: 1, offsets: ((1i8, 0i8), (1i8, 1i8), (2i8, 1i8)), color: Color::S }
    } else if p == 2 {
        PieceVariant { id: 2, offsets: ((0i8, 1i8), (1i8, 1i8), (1i8, 2i8)), color: Color::Z }
    } else if p == 3 {
        PieceVariant { id: 3, offsets: ((0i8, 1i8), (1i8, 0i8), (-1i8, 1i8)), color: Color::Z }
    } else if p == 4 {
        PieceVariant { id: 4, offsets: ((0i8, 1i8), (0i8, 2i8), (1i8, 1i8)), color: Color::T }
    } else if p == 5 {
        PieceVariant { id: 5, offsets: ((1i8, 0i8), (1i8, 1i8), (2i8, 0i8)), color: Color::T }
    } else if p == 6 {
        PieceVariant { id: 6, offsets: ((0i8, 1i8), (-1i8, 1i8), (0i8, 2i8)), color: Color::T }
    } else if p == 7 {
        PieceVariant { id: 7, offsets: ((-1i8, 1i8), (0i8, 1i8), (1i8, 1i8)), color: Color::T }
    } else if p == 8 {
        PieceVariant { id: 8, offsets: ((0i8, 1i8), (-1i8, 1i8), (-2i8, 1i8)), color: Color::J }
    } else if p == 9 {
        PieceVariant { id: 9, offsets: ((0i8, 1i8), (0i8, 2i8), (1i8, 2i8)), color: Color::J }
    } else if p == 10 {
        PieceVariant { id: 10, offsets: ((1i8, 0i8), (0i8, 1i8), (2i8, 0i8)), color: Color::J }
    } else if p == 11 {
        PieceVariant { id: 11, offsets: ((1i8, 0i8), (1i8, 1i8), (1i8, 2i8)), color: Color::J }
    } else if p == 12 {
        PieceVariant { id: 12, offsets: ((1i8, 0i8), (2i8, 0i8), (2i8, 1i8)), color: Color::L }
    } else if p == 13 {
        PieceVariant { id: 13, offsets: ((0i8, 1i8), (0i8, 2i8), (-1i8, 2i8)), color: Color::L }
    } else if p == 14 {
        PieceVariant { id: 14, offsets: ((0i8, 1i8), (1i8, 1i8), (2i8, 1i8)), color: Color::L }
    } else if p == 15 {
        PieceVariant { id: 15, offsets: ((0i8, 1i8), (0i8, 2i8), (1i8, 0i8)), color: Color::L }
    } else if p == 16 {
        PieceVariant { id: 16, offsets: ((1i8, 0i8), (2i8, 0i8), (3i8, 0i8)), color: Color::I }
    } else if p == 17 {
        PieceVariant { id: 17, offsets: ((0i8, 1i8), (0i8, 2i8), (0i8, 3i8)), color: Color::I }
    } else {
        PieceVariant { id: 18, offsets: ((0i8, 1i8), (1i8, 0i8), (1i8, 1i8)), color: Color::O }
    }
}

/// The standard catalog as a mathematical sequence.
pub open spec fn standard_catalog() -> Seq<PieceVariant> {
    Seq::new(19, |p: int| std_variant(p))
}

/// The standard catalog is well formed: every variant covers four distinct
/// cells and carries its own position as id.
pub proof fn lemma_standard_catalog_wf()
    ensures
        catalog_wf(standard_catalog()),
{
    assert forall|p: int| 0 <= p < standard_catalog().len() implies variant_wf(
        #[trigger] standard_catalog()[p],
    ) && standard_catalog()[p].id == p by {
        assert(standard_catalog()[p] == std_variant(p));
        assert(variant_wf(std_variant(p)) && std_variant(p).id == p);
    }
}

} // verus!

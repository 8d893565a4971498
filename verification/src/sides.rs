//! What a tile remembers of the blocks above and to the left, in units of four samples.
use crate::inter::{Mv, NONE_FRAME};
use crate::palette_colors::palette_ok;
use vstd::prelude::*;

verus! {

/// What is remembered of the block at one place.
#[derive(Debug, Clone, Copy, PartialEq, Eq, Structural)]
pub struct Neighbour {
    /// The binary logarithm of its width above, of its height to the left.
    pub size_log2: u8,
    pub skip: u8,
    pub ymode: u8,
    pub uv: u8,
    /// The width of its luma transform above, the height to the left.
    pub tx: u8,
    pub is_inter: u8,
    pub ref0: u8,
    pub ref1: u8,
    pub mv0: Mv,
    pub mv1: Mv,
}

impl Neighbour {
    /// A mode that exists, and flags.
    pub open spec fn wf(self) -> bool {
        &&& self.ymode < 13
        &&& self.skip <= 1
        &&& self.is_inter <= 1
    }
}

/// What is remembered before a block is decoded.
pub open spec fn no_neighbour() -> Neighbour {
    Neighbour {
        size_log2: 0,
        skip: 0,
        ymode: 0,
        uv: 0,
        tx: 4,
        is_inter: 0,
        ref0: NONE_FRAME,
        ref1: NONE_FRAME,
        mv0: Mv { row: 0, col: 0 },
        mv1: Mv { row: 0, col: 0 },
    }
}

/// What a block leaves behind.
#[derive(Debug, Clone, Copy)]
pub enum Mark {
    /// Its size.
    Size(u8),
    /// The modes, the transform side and the skip flag of an intra block.
    Intra(u8, u8, u8, u8),
    /// That it is not an inter block.
    NotInter,
    /// The transform side, the skip flag, the references and the vectors of an inter
    /// block.
    Inter(u8, u8, u8, u8, Mv, Mv),
}

/// What is remembered after a block has left its mark.
pub open spec fn marked_one(n: Neighbour, m: Mark) -> Neighbour {
    match m {
        Mark::Size(log2) => Neighbour { size_log2: log2, ..n },
        Mark::Intra(ymode, uv, tx, skip) => Neighbour { ymode, uv, tx, skip, ..n },
        Mark::NotInter => Neighbour { is_inter: 0, ..n },
        Mark::Inter(tx, skip, ref0, ref1, mv0, mv1) => Neighbour {
            is_inter: 1,
            ymode: 0,
            tx,
            skip,
            ref0,
            ref1,
            mv0,
            mv1,
            ..n
        },
    }
}

/// The mark keeps a neighbour well-formed.
pub open spec fn mark_ok(m: Mark) -> bool {
    match m {
        Mark::Size(_) => true,
        Mark::Intra(ymode, _, _, skip) => ymode < 13 && skip <= 1,
        Mark::NotInter => true,
        Mark::Inter(_, skip, _, _, _, _) => skip <= 1,
    }
}

/// A side with a mark on the `n` places from `from` on.
pub open spec fn marked(s: Seq<Neighbour>, from: int, n: int, m: Mark) -> Seq<Neighbour> {
    Seq::new(
        s.len(),
        |i: int|
            if from <= i < from + n {
                marked_one(s[i], m)
            } else {
                s[i]
            },
    )
}

/// Every neighbour of a side is well-formed.
pub open spec fn side_wf(s: Seq<Neighbour>) -> bool {
    forall|i: int| 0 <= i < s.len() ==> (#[trigger] s[i]).wf()
}

/// The palettes of a side.
pub open spec fn palettes(v: Seq<Vec<i32>>) -> Seq<Seq<i32>> {
    Seq::new(v.len(), |i: int| v[i]@)
}

/// Every palette of a side is in order.
pub open spec fn palettes_ok(s: Seq<Seq<i32>>) -> bool {
    forall|i: int| 0 <= i < s.len() ==> palette_ok(#[trigger] s[i])
}

/// A side with a palette at the `n` places from `from` on.
pub open spec fn recolored(s: Seq<Seq<i32>>, from: int, n: int, colors: Seq<i32>) -> Seq<
    Seq<i32>,
> {
    Seq::new(
        s.len(),
        |i: int|
            if from <= i < from + n {
                colors
            } else {
                s[i]
            },
    )
}

/// What a tile remembers of its neighbours.
pub struct Sides {
    pub above: Vec<Neighbour>,
    pub left: Vec<Neighbour>,
    pub y_above: Vec<Vec<i32>>,
    pub y_left: Vec<Vec<i32>>,
    pub u_above: Vec<Vec<i32>>,
    pub u_left: Vec<Vec<i32>>,
}

/// The model of what a tile remembers of its neighbours.
#[verifier::ext_equal]
pub struct SidesModel {
    pub above: Seq<Neighbour>,
    pub left: Seq<Neighbour>,
    pub y_above: Seq<Seq<i32>>,
    pub y_left: Seq<Seq<i32>>,
    pub u_above: Seq<Seq<i32>>,
    pub u_left: Seq<Seq<i32>>,
}

impl View for Sides {
    type V = SidesModel;

    open spec fn view(&self) -> SidesModel {
        SidesModel {
            above: self.above@,
            left: self.left@,
            y_above: palettes(self.y_above@),
            y_left: palettes(self.y_left@),
            u_above: palettes(self.u_above@),
            u_left: palettes(self.u_left@),
        }
    }
}

impl SidesModel {
    /// Sides for `cols` columns and `rows` rows.
    pub open spec fn wf(self, cols: int, rows: int) -> bool {
        &&& self.above.len() == cols
        &&& self.left.len() == rows
        &&& self.y_above.len() == cols
        &&& self.y_left.len() == rows
        &&& self.u_above.len() == cols
        &&& self.u_left.len() == rows
        &&& side_wf(self.above)
        &&& side_wf(self.left)
        &&& palettes_ok(self.y_above)
        &&& palettes_ok(self.y_left)
        &&& palettes_ok(self.u_above)
        &&& palettes_ok(self.u_left)
    }

    /// The sides after a block of `bw` by `bh` units at `row`, `col` has left `top` above
    /// and `side` to the left.
    pub open spec fn with_marks(
        self,
        row: int,
        col: int,
        bw: int,
        bh: int,
        top: Mark,
        side: Mark,
    ) -> SidesModel {
        SidesModel {
            above: marked(self.above, col, bw, top),
            left: marked(self.left, row, bh, side),
            ..self
        }
    }

    /// The sides after a block has left its palettes.
    pub open spec fn with_palettes(
        self,
        row: int,
        col: int,
        bw: int,
        bh: int,
        y: Seq<i32>,
        u: Seq<i32>,
    ) -> SidesModel {
        SidesModel {
            y_above: recolored(self.y_above, col, bw, y),
            y_left: recolored(self.y_left, row, bh, y),
            u_above: recolored(self.u_above, col, bw, u),
            u_left: recolored(self.u_left, row, bh, u),
            ..self
        }
    }
}

/// The sides before a block is decoded.
pub open spec fn fresh_sides(cols: int, rows: int) -> SidesModel {
    SidesModel {
        above: Seq::new(cols as nat, |i: int| no_neighbour()),
        left: Seq::new(rows as nat, |i: int| no_neighbour()),
        y_above: Seq::new(cols as nat, |i: int| Seq::empty()),
        y_left: Seq::new(rows as nat, |i: int| Seq::empty()),
        u_above: Seq::new(cols as nat, |i: int| Seq::empty()),
        u_left: Seq::new(rows as nat, |i: int| Seq::empty()),
    }
}

/// Marks and palettes keep the sides in order.
pub proof fn lemma_sides_kept(s: SidesModel, cols: int, rows: int)
    requires
        s.wf(cols, rows),
    ensures
        forall|row: int, col: int, bw: int, bh: int, top: Mark, side: Mark|
            mark_ok(top) && mark_ok(side) ==> (#[trigger] s.with_marks(
                row,
                col,
                bw,
                bh,
                top,
                side,
            )).wf(cols, rows),
        forall|row: int, col: int, bw: int, bh: int, y: Seq<i32>, u: Seq<i32>|
            palette_ok(y) && palette_ok(u) ==> (#[trigger] s.with_palettes(
                row,
                col,
                bw,
                bh,
                y,
                u,
            )).wf(cols, rows),
{
}

fn fresh_side(n: usize) -> (r: Vec<Neighbour>)
    ensures
        r@ == Seq::new(n as nat, |i: int| no_neighbour()),
{
    let mut r: Vec<Neighbour> = Vec::new();
    while r.len() < n
        invariant
            r@.len() <= n,
            forall|i: int| 0 <= i < r@.len() ==> #[trigger] r@[i] == no_neighbour(),
        decreases n - r.len(),
    {
        r.push(
            Neighbour {
                size_log2: 0,
                skip: 0,
                ymode: 0,
                uv: 0,
                tx: 4,
                is_inter: 0,
                ref0: NONE_FRAME,
                ref1: NONE_FRAME,
                mv0: Mv { row: 0, col: 0 },
                mv1: Mv { row: 0, col: 0 },
            },
        );
    }
    assert(r@ =~= Seq::new(n as nat, |i: int| no_neighbour()));
    r
}

fn fresh_palettes(n: usize) -> (r: Vec<Vec<i32>>)
    ensures
        palettes(r@) == Seq::new(n as nat, |i: int| Seq::<i32>::empty()),
{
    let mut r: Vec<Vec<i32>> = Vec::new();
    while r.len() < n
        invariant
            r@.len() <= n,
            forall|i: int| 0 <= i < r@.len() ==> (#[trigger] r@[i])@ == Seq::<i32>::empty(),
        decreases n - r.len(),
    {
        let none: Vec<i32> = Vec::new();
        assert(none@ =~= Seq::empty());
        r.push(none);
    }
    assert(palettes(r@) =~= Seq::new(n as nat, |i: int| Seq::<i32>::empty()));
    r
}

/// A copy of a list of colors.
pub fn copy_colors(v: &Vec<i32>) -> (r: Vec<i32>)
    ensures
        r@ == v@,
{
    let mut r: Vec<i32> = Vec::new();
    let mut i: usize = 0;
    while i < v.len()
        invariant
            i <= v@.len(),
            r@.len() == i,
            forall|k: int| 0 <= k < i ==> #[trigger] r@[k] == v@[k],
        decreases v.len() - i,
    {
        r.push(v[i]);
        i = i + 1;
    }
    assert(r@ =~= v@);
    r
}

fn apply(n: Neighbour, m: Mark) -> (r: Neighbour)
    ensures
        r == marked_one(n, m),
{
    match m {
        Mark::Size(log2) => Neighbour { size_log2: log2, ..n },
        Mark::Intra(ymode, uv, tx, skip) => Neighbour { ymode, uv, tx, skip, ..n },
        Mark::NotInter => Neighbour { is_inter: 0, ..n },
        Mark::Inter(tx, skip, ref0, ref1, mv0, mv1) => Neighbour {
            is_inter: 1,
            ymode: 0,
            tx,
            skip,
            ref0,
            ref1,
            mv0,
            mv1,
            ..n
        },
    }
}

fn mark_range(v: &mut Vec<Neighbour>, from: usize, n: usize, m: Mark)
    requires
        from <= 0x1_0000,
        n <= 0x1_0000,
    ensures
        final(v)@ == marked(old(v)@, from as int, n as int, m),
{
    let ghost v0 = v@;
    let mut i: usize = from;
    while i < from + n && i < v.len()
        invariant
            from <= i <= from + n,
            from <= 0x1_0000,
            n <= 0x1_0000,
            v@.len() == v0.len(),
            forall|k: int|
                0 <= k < v0.len() ==> #[trigger] v@[k] == if from <= k < i {
                    marked_one(v0[k], m)
                } else {
                    v0[k]
                },
        decreases from + n - i,
    {
        let here: Neighbour = v[i];
        v.set(i, apply(here, m));
        i = i + 1;
    }
    assert(v@ =~= marked(v0, from as int, n as int, m));
}

fn color_range(v: &mut Vec<Vec<i32>>, from: usize, n: usize, colors: &Vec<i32>)
    requires
        from <= 0x1_0000,
        n <= 0x1_0000,
    ensures
        palettes(final(v)@) == recolored(palettes(old(v)@), from as int, n as int, colors@),
{
    let ghost v0 = v@;
    let mut i: usize = from;
    while i < from + n && i < v.len()
        invariant
            from <= i <= from + n,
            from <= 0x1_0000,
            n <= 0x1_0000,
            v@.len() == v0.len(),
            forall|k: int|
                0 <= k < v0.len() ==> (#[trigger] v@[k])@ == if from <= k < i {
                    colors@
                } else {
                    v0[k]@
                },
        decreases from + n - i,
    {
        v.set(i, copy_colors(colors));
        i = i + 1;
    }
    assert(palettes(v@) =~= recolored(palettes(v0), from as int, n as int, colors@));
}

impl Sides {
    /// The sides before a block is decoded.
    pub fn new(cols: usize, rows: usize) -> (r: Self)
        ensures
            r@ == fresh_sides(cols as int, rows as int),
            r@.wf(cols as int, rows as int),
    {
        let r: Sides = Sides {
            above: fresh_side(cols),
            left: fresh_side(rows),
            y_above: fresh_palettes(cols),
            y_left: fresh_palettes(rows),
            u_above: fresh_palettes(cols),
            u_left: fresh_palettes(rows),
        };
        assert(r@ =~= fresh_sides(cols as int, rows as int));
        r
    }

    /// Leaves the marks of a block of `bw` by `bh` units at `row`, `col`.
    pub fn mark(&mut self, row: usize, col: usize, bw: usize, bh: usize, top: Mark, side: Mark)
        requires
            row <= 0x1_0000,
            col <= 0x1_0000,
            bw <= 0x1_0000,
            bh <= 0x1_0000,
        ensures
            final(self)@ == old(self)@.with_marks(
                row as int,
                col as int,
                bw as int,
                bh as int,
                top,
                side,
            ),
    {
        mark_range(&mut self.above, col, bw, top);
        mark_range(&mut self.left, row, bh, side);
    }

    /// Leaves the palettes of a block.
    pub fn recolor(
        &mut self,
        row: usize,
        col: usize,
        bw: usize,
        bh: usize,
        y: &Vec<i32>,
        u: &Vec<i32>,
    )
        requires
            row <= 0x1_0000,
            col <= 0x1_0000,
            bw <= 0x1_0000,
            bh <= 0x1_0000,
        ensures
            final(self)@ == old(self)@.with_palettes(
                row as int,
                col as int,
                bw as int,
                bh as int,
                y@,
                u@,
            ),
    {
        color_range(&mut self.y_above, col, bw, y);
        color_range(&mut self.y_left, row, bh, y);
        color_range(&mut self.u_above, col, bw, u);
        color_range(&mut self.u_left, row, bh, u);
    }
}

} // verus!

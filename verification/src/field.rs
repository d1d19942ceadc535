//! The material field of a chunk: one column of cells per horizontal coordinate, kept as runs
//! of equal cells until a single cell is edited.
use vstd::prelude::*;

use crate::block::{BlockID, MaterialCell};
use crate::chunk::{Chunk, DecodeError, CHUNK_X, CHUNK_Y, CHUNK_Z, STORAGE_VERSION};
use crate::block;
use crate::chunk;

verus! {

/// Names a free object of the world.
pub type ObjectID = u64;

/// The material field of one chunk.
#[derive(Clone, PartialEq, Debug)]
pub struct FieldChunk {
    pub columns: Vec<Column>,
    pub free_object_refs: Vec<ObjectID>,
}

/// One column of cells.
#[derive(Clone, PartialEq, Debug)]
pub enum Column {
    Spans(Vec<Span>),
    Dense(Vec<MaterialCell>),
}

/// A run of equal cells.
#[derive(Copy, Clone, PartialEq, Eq, Debug, Structural)]
pub struct Span {
    pub y_start: u16,
    pub length: u16,
    pub cell: MaterialCell,
}

impl Span {
    /// Whether the run reaches over height `y`.
    pub open spec fn covers(self, y: int) -> bool {
        self.y_start <= y < self.y_start + self.length
    }
}

/// The cell at height `y` of a column kept as runs: that of the first run over it.
pub open spec fn first_cover(spans: Seq<Span>, y: int) -> MaterialCell
    decreases spans.len(),
{
    if spans.len() == 0 {
        block::empty_cell()
    } else if spans[0].covers(y) {
        spans[0].cell
    } else {
        first_cover(spans.drop_first(), y)
    }
}

/// The cell at height `y` once the runs have been painted one over the other.
pub open spec fn last_cover(spans: Seq<Span>, y: int) -> MaterialCell
    decreases spans.len(),
{
    if spans.len() == 0 {
        block::empty_cell()
    } else if spans.last().covers(y) {
        spans.last().cell
    } else {
        last_cover(spans.drop_last(), y)
    }
}

/// Whether no height lies under two runs.
pub open spec fn disjoint(spans: Seq<Span>) -> bool {
    forall|i: int, j: int, y: int|
        0 <= i < j < spans.len() && #[trigger] spans[i].covers(y) ==> !#[trigger] spans[j].covers(
            y,
        )
}

/// A span that is a maximal run of equal, non-empty cells.
pub open spec fn is_maximal_run(span: Span, cells: Seq<MaterialCell>) -> bool {
    let end = span.y_start + span.length;
    &&& span.length > 0
    &&& end <= cells.len()
    &&& !span.cell.holds_nothing()
    &&& forall|y: int| span.y_start <= y < end ==> #[trigger] cells[y] == span.cell
    &&& end < cells.len() ==> cells[end] != span.cell
    &&& span.y_start > 0 ==> cells[span.y_start - 1] != span.cell
}

/// Whether `spans` lists, from the bottom up, the maximal runs of the non-empty cells below
/// height `upto`.
pub open spec fn lists_runs(spans: Seq<Span>, cells: Seq<MaterialCell>, upto: int) -> bool {
    &&& forall|i: int| 0 <= i < spans.len() ==> is_maximal_run(#[trigger] spans[i], cells)
    &&& forall|i: int|
        0 <= i < spans.len() ==> (#[trigger] spans[i]).y_start + spans[i].length <= upto
    &&& forall|i: int, j: int|
        0 <= i < j < spans.len() ==> (#[trigger] spans[i]).y_start + spans[i].length <= (
        #[trigger] spans[j]).y_start
    &&& forall|y: int|
        0 <= y < upto && !(#[trigger] cells[y]).holds_nothing() ==> exists|i: int|
            0 <= i < spans.len() && #[trigger] spans[i].covers(y)
}

/// A cell as a column keeps it: all cells that hold nothing are alike.
pub open spec fn kept(cell: MaterialCell) -> MaterialCell {
    if cell.holds_nothing() {
        block::empty_cell()
    } else {
        cell
    }
}

/// Place of a column in a field chunk.
pub open spec fn column_offset(lx: int, lz: int) -> int {
    lz * 16 + lx
}

proof fn lemma_first_cover_of(spans: Seq<Span>, y: int, i: int)
    requires
        disjoint(spans),
        0 <= i < spans.len(),
        spans[i].covers(y),
    ensures
        first_cover(spans, y) == spans[i].cell,
    decreases spans.len(),
{
    if spans[0].covers(y) {
        if i > 0 {
            assert(!spans[i].covers(y));
        }
    } else {
        let rest = spans.drop_first();
        assert(rest[i - 1] == spans[i]);
        assert forall|a: int, b: int, h: int|
            0 <= a < b < rest.len() && #[trigger] rest[a].covers(h) implies !#[trigger] rest[b].covers(
            h,
        ) by {
            assert(spans[a + 1].covers(h));
            assert(!spans[b + 1].covers(h));
        }
        lemma_first_cover_of(rest, y, i - 1);
    }
}

proof fn lemma_first_cover_none(spans: Seq<Span>, y: int)
    requires
        forall|i: int| 0 <= i < spans.len() ==> !(#[trigger] spans[i]).covers(y),
    ensures
        first_cover(spans, y) == block::empty_cell(),
    decreases spans.len(),
{
    if spans.len() > 0 {
        let rest = spans.drop_first();
        assert forall|i: int| 0 <= i < rest.len() implies !(#[trigger] rest[i]).covers(y) by {
            assert(rest[i] == spans[i + 1]);
        }
        lemma_first_cover_none(rest, y);
    }
}

proof fn lemma_last_cover_of(spans: Seq<Span>, y: int, i: int)
    requires
        disjoint(spans),
        0 <= i < spans.len(),
        spans[i].covers(y),
    ensures
        last_cover(spans, y) == spans[i].cell,
    decreases spans.len(),
{
    let last = spans.len() - 1;
    if i < last {
        assert(!spans[last].covers(y));
        let rest = spans.drop_last();
        assert(rest[i] == spans[i]);
        assert forall|a: int, b: int, h: int|
            0 <= a < b < rest.len() && #[trigger] rest[a].covers(h) implies !#[trigger] rest[b].covers(
            h,
        ) by {
            assert(spans[a].covers(h));
            assert(!spans[b].covers(h));
        }
        lemma_last_cover_of(rest, y, i);
    }
}

proof fn lemma_last_cover_none(spans: Seq<Span>, y: int)
    requires
        forall|i: int| 0 <= i < spans.len() ==> !(#[trigger] spans[i]).covers(y),
    ensures
        last_cover(spans, y) == block::empty_cell(),
    decreases spans.len(),
{
    if spans.len() > 0 {
        let rest = spans.drop_last();
        assert forall|i: int| 0 <= i < rest.len() implies !(#[trigger] rest[i]).covers(y) by {
            assert(rest[i] == spans[i]);
        }
        lemma_last_cover_none(rest, y);
    }
}

/// Where no two runs overlap, reading the first run and painting all of them agree.
pub proof fn law_disjoint_runs_paint_what_they_read(spans: Seq<Span>, y: int)
    requires
        disjoint(spans),
    ensures
        last_cover(spans, y) == first_cover(spans, y),
{
    if exists|i: int| 0 <= i < spans.len() && #[trigger] spans[i].covers(y) {
        let i = choose|i: int| 0 <= i < spans.len() && #[trigger] spans[i].covers(y);
        lemma_first_cover_of(spans, y, i);
        lemma_last_cover_of(spans, y, i);
    } else {
        assert forall|i: int| 0 <= i < spans.len() implies !(#[trigger] spans[i]).covers(y) by {}
        lemma_first_cover_none(spans, y);
        lemma_last_cover_none(spans, y);
    }
}

proof fn lemma_runs_are_disjoint(spans: Seq<Span>, cells: Seq<MaterialCell>, upto: int)
    requires
        lists_runs(spans, cells, upto),
    ensures
        disjoint(spans),
{
    assert forall|i: int, j: int, y: int|
        0 <= i < j < spans.len() && #[trigger] spans[i].covers(y) implies !#[trigger] spans[j].covers(
        y,
    ) by {
        assert(spans[i].y_start + spans[i].length <= spans[j].y_start);
    }
}

/// The runs of a column read back as its cells.
pub proof fn law_runs_read_back(spans: Seq<Span>, cells: Seq<MaterialCell>, y: int)
    requires
        lists_runs(spans, cells, cells.len() as int),
        0 <= y < cells.len(),
    ensures
        first_cover(spans, y) == kept(cells[y]),
{
    lemma_runs_are_disjoint(spans, cells, cells.len() as int);
    if exists|i: int| 0 <= i < spans.len() && #[trigger] spans[i].covers(y) {
        let i = choose|i: int| 0 <= i < spans.len() && #[trigger] spans[i].covers(y);
        lemma_first_cover_of(spans, y, i);
        assert(is_maximal_run(spans[i], cells));
        assert(cells[y] == spans[i].cell);
    } else {
        assert forall|i: int| 0 <= i < spans.len() implies !(#[trigger] spans[i]).covers(y) by {}
        lemma_first_cover_none(spans, y);
        assert(cells[y].holds_nothing());
    }
}

impl Column {
    /// A dense column has a cell for each height.
    pub open spec fn wf(self) -> bool {
        match self {
            Column::Spans(_) => true,
            Column::Dense(cells) => cells@.len() == CHUNK_Y,
        }
    }

    /// The cell at height `y`.
    pub open spec fn cell_at(self, y: int) -> MaterialCell {
        match self {
            Column::Spans(spans) => first_cover(spans@, y),
            Column::Dense(cells) => cells@[y],
        }
    }

    /// The cell at height `y` once the column has been made dense.
    pub open spec fn dense_cell_at(self, y: int) -> MaterialCell {
        match self {
            Column::Spans(spans) => last_cover(spans@, y),
            Column::Dense(cells) => cells@[y],
        }
    }

    /// Whether no height lies under two runs.
    pub open spec fn is_disjoint(self) -> bool {
        match self {
            Column::Spans(spans) => disjoint(spans@),
            Column::Dense(_) => true,
        }
    }

    /// A column of air.
    pub fn empty() -> (r: Column)
        ensures
            r.wf(),
            r is Spans,
            r->Spans_0@ == Seq::<Span>::empty(),
    {
        Column::Spans(Vec::new())
    }

    /// The runs of the non-empty cells of a column.
    pub fn from_cells(cells: &[MaterialCell]) -> (r: Column)
        requires
            cells@.len() == CHUNK_Y,
        ensures
            r is Spans,
            lists_runs(r->Spans_0@, cells@, CHUNK_Y as int),
            r.wf(),
            r.is_disjoint(),
            forall|y: int| 0 <= y < CHUNK_Y ==> #[trigger] r.cell_at(y) == kept(cells@[y]),
    {
        let mut spans: Vec<Span> = Vec::new();
        let mut y: usize = 0;
        while y < CHUNK_Y
            invariant
                y <= CHUNK_Y,
                cells@.len() == CHUNK_Y,
                lists_runs(spans@, cells@, y as int),
                0 < y < CHUNK_Y ==> cells@[y as int] != cells@[y - 1],
            decreases CHUNK_Y - y,
        {
            let cell = cells[y];
            let mut len: usize = 1;
            while y + len < CHUNK_Y && cells[y + len] == cell
                invariant
                    y < CHUNK_Y,
                    1 <= len,
                    y + len <= CHUNK_Y,
                    cells@.len() == CHUNK_Y,
                    cell == cells@[y as int],
                    forall|h: int| y <= h < y + len ==> #[trigger] cells@[h] == cell,
                ensures
                    y + len < CHUNK_Y ==> cells@[y + len] != cell,
                decreases CHUNK_Y - len,
            {
                len += 1;
            }
            let ghost before = spans@;
            if !cell.is_empty() {
                let span = Span { y_start: y as u16, length: len as u16, cell };
                spans.push(span);
                proof {
                    assert(is_maximal_run(span, cells@));
                    assert(spans@ == before.push(span));
                    assert forall|h: int|
                        0 <= h < y + len && !(#[trigger] cells@[h]).holds_nothing() implies exists|
                        i: int,
                    | 0 <= i < spans@.len() && #[trigger] spans@[i].covers(h) by {
                        if h < y {
                            let i = choose|i: int|
                                0 <= i < before.len() && #[trigger] before[i].covers(h);
                            assert(spans@[i].covers(h));
                        } else {
                            assert(spans@[before.len() as int].covers(h));
                        }
                    }
                }
            } else {
                proof {
                    assert forall|h: int|
                        0 <= h < y + len && !(#[trigger] cells@[h]).holds_nothing() implies exists|
                        i: int,
                    | 0 <= i < spans@.len() && #[trigger] spans@[i].covers(h) by {
                        assert(h < y);
                        let i = choose|i: int| 0 <= i < before.len() && #[trigger] before[i].covers(h);
                        assert(spans@[i].covers(h));
                    }
                }
            }
            y += len;
        }
        proof {
            lemma_runs_are_disjoint(spans@, cells@, CHUNK_Y as int);
            assert forall|h: int| 0 <= h < CHUNK_Y implies #[trigger] first_cover(spans@, h) == kept(
                cells@[h],
            ) by {
                law_runs_read_back(spans@, cells@, h);
            }
        }
        Column::Spans(spans)
    }

    /// The cell at height `ly`.
    pub fn get(&self, ly: usize) -> (r: MaterialCell)
        requires
            self.wf(),
            self is Dense ==> ly < CHUNK_Y,
        ensures
            r == self.cell_at(ly as int),
    {
        match self {
            Column::Spans(spans) => {
                let mut i: usize = 0;
                proof {
                    assert(spans@.skip(0) == spans@);
                }
                while i < spans.len()
                    invariant
                        i <= spans@.len(),
                        self.cell_at(ly as int) == first_cover(spans@, ly as int),
                        first_cover(spans@, ly as int) == first_cover(
                            spans@.skip(i as int),
                            ly as int,
                        ),
                    decreases spans@.len() - i,
                {
                    let span = spans[i];
                    let start: usize = span.y_start as usize;
                    let end: usize = start + span.length as usize;
                    proof {
                        assert(spans@.skip(i as int)[0] == span);
                        assert(spans@.skip(i as int).drop_first() == spans@.skip(i + 1));
                    }
                    if ly >= start && ly < end {
                        return span.cell;
                    }
                    i += 1;
                }
                MaterialCell::empty()
            },
            Column::Dense(cells) => cells[ly],
        }
    }

    /// Makes the column dense and writes the cell at height `ly`.
    pub fn set(&mut self, ly: usize, cell: MaterialCell)
        requires
            old(self).wf(),
            ly < CHUNK_Y,
        ensures
            final(self).wf(),
            *final(self) is Dense,
            forall|y: int|
                0 <= y < CHUNK_Y ==> #[trigger] final(self).cell_at(y) == (if y == ly {
                    cell
                } else {
                    old(self).dense_cell_at(y)
                }),
    {
        if !self.is_dense() {
            *self = Column::Dense(self.to_dense());
        }
        match self {
            Column::Dense(cells) => {
                cells.set(ly, cell);
            },
            Column::Spans(_) => {},
        }
    }

    /// The cells of the column from the bottom up, later runs painted over earlier ones.
    fn to_dense(&self) -> (dense: Vec<MaterialCell>)
        requires
            self.wf(),
        ensures
            dense@.len() == CHUNK_Y,
            forall|y: int| 0 <= y < CHUNK_Y ==> #[trigger] dense@[y] == self.dense_cell_at(y),
    {
        let mut dense: Vec<MaterialCell> = vec![MaterialCell::empty(); CHUNK_Y];
        match self {
            Column::Spans(spans) => {
                let mut i: usize = 0;
                while i < spans.len()
                    invariant
                        i <= spans@.len(),
                        dense@.len() == CHUNK_Y,
                        forall|y: int|
                            0 <= y < CHUNK_Y ==> #[trigger] dense@[y] == last_cover(
                                spans@.take(i as int),
                                y,
                            ),
                    decreases spans@.len() - i,
                {
                    let span = spans[i];
                    let start: usize = span.y_start as usize;
                    let stop: usize = start + span.length as usize;
                    let end: usize = if stop < CHUNK_Y {
                        stop
                    } else {
                        CHUNK_Y
                    };
                    let ghost before = dense@;
                    let mut y: usize = start;
                    while y < end
                        invariant
                            start <= y,
                            end <= CHUNK_Y,
                            start <= end ==> y <= end,
                            dense@.len() == CHUNK_Y,
                            before.len() == CHUNK_Y,
                            forall|h: int|
                                0 <= h < CHUNK_Y ==> #[trigger] dense@[h] == (if start <= h < y {
                                    span.cell
                                } else {
                                    before[h]
                                }),
                        decreases end - y,
                    {
                        dense.set(y, span.cell);
                        y += 1;
                    }
                    proof {
                        let done = spans@.take(i + 1);
                        assert(done.last() == span);
                        assert(done.drop_last() == spans@.take(i as int));
                        assert forall|h: int| 0 <= h < CHUNK_Y implies #[trigger] dense@[h]
                            == last_cover(done, h) by {
                            assert(before[h] == last_cover(spans@.take(i as int), h));
                        }
                    }
                    i += 1;
                }
                proof {
                    assert(spans@.take(spans@.len() as int) == spans@);
                }
            },
            Column::Dense(cells) => {
                let mut y: usize = 0;
                while y < CHUNK_Y
                    invariant
                        y <= CHUNK_Y,
                        dense@.len() == CHUNK_Y,
                        cells@.len() == CHUNK_Y,
                        forall|h: int| 0 <= h < y ==> #[trigger] dense@[h] == cells@[h],
                    decreases CHUNK_Y - y,
                {
                    dense.set(y, cells[y]);
                    y += 1;
                }
            },
        }
        dense
    }

    pub fn is_dense(&self) -> (r: bool)
        ensures
            r == (self is Dense),
    {
        match self {
            Column::Dense(_) => true,
            Column::Spans(_) => false,
        }
    }

    /// Number of runs; a dense column has none.
    pub fn span_count(&self) -> (r: usize)
        ensures
            r == (match self {
                Column::Spans(spans) => spans@.len(),
                Column::Dense(_) => 0,
            }),
    {
        match self {
            Column::Spans(spans) => spans.len(),
            Column::Dense(_) => 0,
        }
    }
}

/// Whether a column is the first that lacks cells or has too many.
pub open spec fn is_first_misshapen(columns: Seq<Column>, i: int) -> bool {
    &&& 0 <= i < columns.len()
    &&& !columns[i].wf()
    &&& forall|j: int| 0 <= j < i ==> (#[trigger] columns[j]).wf()
}

/// Whether stored bytes start with the version that is written today.
pub fn check_version(bytes: &[u8]) -> (r: Result<(), DecodeError>)
    ensures
        match r {
            Ok(_) => bytes@.len() > 0 && bytes@[0] == STORAGE_VERSION,
            Err(e) => if bytes@.len() == 0 {
                e == DecodeError::LengthMismatch(0)
            } else {
                bytes@[0] != STORAGE_VERSION && e == (DecodeError::VersionMismatch {
                    found: bytes@[0],
                    expected: STORAGE_VERSION,
                })
            },
        },
{
    if bytes.len() == 0 {
        Err(DecodeError::LengthMismatch(0))
    } else if bytes[0] != STORAGE_VERSION {
        Err(DecodeError::VersionMismatch { found: bytes[0], expected: STORAGE_VERSION })
    } else {
        Ok(())
    }
}

impl FieldChunk {
    /// One well-formed column for each horizontal coordinate.
    pub open spec fn wf(self) -> bool {
        &&& self.columns@.len() == CHUNK_X * CHUNK_Z
        &&& forall|i: int| 0 <= i < self.columns@.len() ==> (#[trigger] self.columns@[i]).wf()
    }

    /// The cell at a local coordinate.
    pub open spec fn cell_at(self, lx: int, ly: int, lz: int) -> MaterialCell {
        self.columns@[column_offset(lx, lz)].cell_at(ly)
    }

    /// Whether a field read back has all its columns, each of full height. Otherwise the number
    /// of columns comes back, or the height of the first column that is not full.
    pub fn check_shape(&self) -> (r: Result<(), DecodeError>)
        ensures
            match r {
                Ok(_) => self.wf(),
                Err(e) => if self.columns@.len() != CHUNK_X * CHUNK_Z {
                    e == DecodeError::LengthMismatch(self.columns@.len() as usize)
                } else {
                    exists|i: int| #[trigger]
                        is_first_misshapen(self.columns@, i) && e == DecodeError::LengthMismatch(
                            self.columns@[i]->Dense_0@.len() as usize,
                        )
                },
            },
    {
        if self.columns.len() != CHUNK_X * CHUNK_Z {
            return Err(DecodeError::LengthMismatch(self.columns.len()));
        }
        let mut i: usize = 0;
        while i < self.columns.len()
            invariant
                i <= self.columns@.len(),
                self.columns@.len() == CHUNK_X * CHUNK_Z,
                forall|j: int| 0 <= j < i ==> (#[trigger] self.columns@[j]).wf(),
            decreases self.columns@.len() - i,
        {
            if let Column::Dense(cells) = &self.columns[i] {
                if cells.len() != CHUNK_Y {
                    proof {
                        assert(is_first_misshapen(self.columns@, i as int));
                    }
                    return Err(DecodeError::LengthMismatch(cells.len()));
                }
            }
            i = i + 1;
        }
        Ok(())
    }

    /// A field of air.
    pub fn empty() -> (r: FieldChunk)
        ensures
            r.wf(),
            forall|i: int|
                0 <= i < r.columns@.len() ==> (#[trigger] r.columns@[i]) is Spans
                    && r.columns@[i]->Spans_0@ == Seq::<Span>::empty(),
            r.free_object_refs@ == Seq::<ObjectID>::empty(),
    {
        let mut columns: Vec<Column> = Vec::new();
        let mut i: usize = 0;
        while i < CHUNK_X * CHUNK_Z
            invariant
                i <= CHUNK_X * CHUNK_Z,
                columns@.len() == i,
                forall|k: int|
                    0 <= k < i ==> (#[trigger] columns@[k]) is Spans && columns@[k]->Spans_0@
                        == Seq::<Span>::empty(),
            decreases CHUNK_X * CHUNK_Z - i,
        {
            columns.push(Column::empty());
            i += 1;
        }
        FieldChunk { columns, free_object_refs: Vec::new() }
    }

    /// The field of a chunk: each column kept as runs.
    pub fn from_chunk(chunk: &Chunk) -> (r: FieldChunk)
        requires
            chunk.wf(),
        ensures
            is_field_of(r, *chunk),
    {
        let mut columns: Vec<Column> = Vec::new();
        let mut lz: usize = 0;
        while lz < CHUNK_Z
            invariant
                lz <= CHUNK_Z,
                chunk.wf(),
                columns@.len() == lz * 16,
                forall|x: int, z: int|
                    0 <= x < 16 && 0 <= z < lz ==> holds_column(
                        #[trigger] columns@[column_offset(x, z)],
                        *chunk,
                        x,
                        z,
                    ),
            decreases CHUNK_Z - lz,
        {
            let mut lx: usize = 0;
            while lx < CHUNK_X
                invariant
                    lz < CHUNK_Z,
                    lx <= CHUNK_X,
                    chunk.wf(),
                    columns@.len() == lz * 16 + lx,
                    forall|x: int, z: int|
                        0 <= x < 16 && 0 <= z < 16 && column_offset(x, z) < lz * 16 + lx
                            ==> holds_column(
                            #[trigger] columns@[column_offset(x, z)],
                            *chunk,
                            x,
                            z,
                        ),
                decreases CHUNK_X - lx,
            {
                let cells = column_cells(chunk, lx, lz);
                let column = Column::from_cells(cells.as_slice());
                let ghost before = columns@;
                columns.push(column);
                proof {
                    assert(cells@ == chunk_column(*chunk, lx as int, lz as int));
                    assert(holds_column(column, *chunk, lx as int, lz as int));
                    assert forall|x: int, z: int|
                        0 <= x < 16 && 0 <= z < 16 && column_offset(x, z) < lz * 16 + lx + 1
                        implies holds_column(
                        #[trigger] columns@[column_offset(x, z)],
                        *chunk,
                        x,
                        z,
                    ) by {
                        if column_offset(x, z) < lz * 16 + lx {
                            assert(holds_column(before[column_offset(x, z)], *chunk, x, z));
                        } else {
                            assert(x == lx && z == lz);
                        }
                    }
                }
                lx += 1;
            }
            lz += 1;
        }
        let field = FieldChunk { columns, free_object_refs: Vec::new() };
        proof {
            assert forall|i: int| 0 <= i < field.columns@.len() implies (
            #[trigger] field.columns@[i]).wf() by {
                assert(i == column_offset(i % 16, i / 16));
                assert(holds_column(field.columns@[column_offset(i % 16, i / 16)], *chunk, i % 16, i / 16));
            }
        }
        field
    }

    /// The blocks that the cells of a field look like.
    pub fn to_chunk(&self) -> (r: Chunk)
        requires
            self.wf(),
        ensures
            is_chunk_of(r, *self),
    {
        let mut chunk = Chunk::empty();
        let mut lz: usize = 0;
        while lz < CHUNK_Z
            invariant
                lz <= CHUNK_Z,
                self.wf(),
                chunk.wf(),
                forall|x: int, y: int, z: int|
                    chunk::in_chunk(x, y, z) && z < lz ==> #[trigger] chunk.block_at(x, y, z)
                        == block::block_of_cell(self.cell_at(x, y, z)),
            decreases CHUNK_Z - lz,
        {
            let mut lx: usize = 0;
            while lx < CHUNK_X
                invariant
                    lz < CHUNK_Z,
                    lx <= CHUNK_X,
                    self.wf(),
                    chunk.wf(),
                    forall|x: int, y: int, z: int|
                        chunk::in_chunk(x, y, z) && (z < lz || (z == lz && x < lx))
                            ==> #[trigger] chunk.block_at(x, y, z) == block::block_of_cell(
                            self.cell_at(x, y, z),
                        ),
                decreases CHUNK_X - lx,
            {
                let column = &self.columns[column_index(lx, lz)];
                let mut ly: usize = 0;
                while ly < CHUNK_Y
                    invariant
                        lz < CHUNK_Z,
                        lx < CHUNK_X,
                        ly <= CHUNK_Y,
                        self.wf(),
                        chunk.wf(),
                        column == self.columns@[column_offset(lx as int, lz as int)],
                        column.wf(),
                        forall|x: int, y: int, z: int|
                            chunk::in_chunk(x, y, z) && (z < lz || (z == lz && x < lx) || (z == lz && x
                                == lx && y < ly)) ==> #[trigger] chunk.block_at(x, y, z)
                                == block::block_of_cell(self.cell_at(x, y, z)),
                    decreases CHUNK_Y - ly,
                {
                    let ghost before = chunk;
                    let block = cell_to_block(column.get(ly));
                    chunk.set(lx, ly, lz, block);
                    proof {
                        assert forall|x: int, y: int, z: int|
                            chunk::in_chunk(x, y, z) && (z < lz || (z == lz && x < lx) || (z == lz && x
                                == lx && y < ly + 1)) implies #[trigger] chunk.block_at(x, y, z)
                            == block::block_of_cell(self.cell_at(x, y, z)) by {
                            assert(chunk::local_offset(x, y, z) == chunk::local_offset(
                                lx as int,
                                ly as int,
                                lz as int,
                            ) ==> x == lx && y == ly && z == lz);
                            if !(x == lx && y == ly && z == lz) {
                                assert(before.block_at(x, y, z) == block::block_of_cell(
                                    self.cell_at(x, y, z),
                                ));
                            }
                        }
                    }
                    ly += 1;
                }
                lx += 1;
            }
            lz += 1;
        }
        chunk
    }

    pub fn get(&self, lx: usize, ly: usize, lz: usize) -> (r: MaterialCell)
        requires
            self.wf(),
            chunk::in_chunk(lx as int, ly as int, lz as int),
        ensures
            r == self.cell_at(lx as int, ly as int, lz as int),
    {
        self.columns[column_index(lx, lz)].get(ly)
    }

    pub fn set(&mut self, lx: usize, ly: usize, lz: usize, cell: MaterialCell)
        requires
            old(self).wf(),
            chunk::in_chunk(lx as int, ly as int, lz as int),
        ensures
            final(self).wf(),
            final(self).free_object_refs == old(self).free_object_refs,
            final(self).columns@ == old(self).columns@.update(
                column_offset(lx as int, lz as int),
                final(self).columns@[column_offset(lx as int, lz as int)],
            ),
            final(self).columns@[column_offset(lx as int, lz as int)] is Dense,
            forall|y: int|
                0 <= y < CHUNK_Y ==> #[trigger] final(self).cell_at(lx as int, y, lz as int) == (
                if y == ly {
                    cell
                } else {
                    old(self).columns@[column_offset(lx as int, lz as int)].dense_cell_at(y)
                }),
    {
        let i: usize = column_index(lx, lz);
        self.columns[i].set(ly, cell);
    }
}

/// The cells of one column of a chunk.
pub open spec fn chunk_column(chunk: Chunk, lx: int, lz: int) -> Seq<MaterialCell> {
    Seq::new(CHUNK_Y as nat, |y: int| block::cell_of_block(chunk.block_at(lx, y, lz)))
}

/// Whether a column holds the blocks of one column of a chunk, as runs.
pub open spec fn holds_column(column: Column, chunk: Chunk, lx: int, lz: int) -> bool {
    &&& column is Spans
    &&& column.wf()
    &&& lists_runs(column->Spans_0@, chunk_column(chunk, lx, lz), CHUNK_Y as int)
    &&& forall|y: int|
        0 <= y < CHUNK_Y ==> #[trigger] column.cell_at(y) == block::cell_of_block(
            chunk.block_at(lx, y, lz),
        )
}

/// Whether `field` is the field of `chunk`.
pub open spec fn is_field_of(field: FieldChunk, chunk: Chunk) -> bool {
    &&& field.wf()
    &&& field.free_object_refs@ == Seq::<ObjectID>::empty()
    &&& forall|x: int, z: int|
        0 <= x < 16 && 0 <= z < 16 ==> holds_column(
            #[trigger] field.columns@[column_offset(x, z)],
            chunk,
            x,
            z,
        )
}

/// Whether `chunk` shows the blocks of `field`.
pub open spec fn is_chunk_of(chunk: Chunk, field: FieldChunk) -> bool {
    &&& chunk.wf()
    &&& forall|x: int, y: int, z: int|
        chunk::in_chunk(x, y, z) ==> #[trigger] chunk.block_at(x, y, z) == block::block_of_cell(
            field.cell_at(x, y, z),
        )
}

/// The cells of one column of a chunk, from the bottom up.
fn column_cells(chunk: &Chunk, lx: usize, lz: usize) -> (cells: Vec<MaterialCell>)
    requires
        chunk.wf(),
        lx < CHUNK_X,
        lz < CHUNK_Z,
    ensures
        cells@ == chunk_column(*chunk, lx as int, lz as int),
{
    let mut cells: Vec<MaterialCell> = Vec::new();
    let mut ly: usize = 0;
    while ly < CHUNK_Y
        invariant
            ly <= CHUNK_Y,
            chunk.wf(),
            lx < CHUNK_X,
            lz < CHUNK_Z,
            cells@ == chunk_column(*chunk, lx as int, lz as int).take(ly as int),
        decreases CHUNK_Y - ly,
    {
        cells.push(block_to_cell(chunk.get(lx, ly, lz)));
        ly += 1;
    }
    cells
}

/// Index of a column in a field chunk.
pub fn column_index(lx: usize, lz: usize) -> (r: usize)
    requires
        lx < CHUNK_X,
        lz < CHUNK_Z,
    ensures
        r == column_offset(lx as int, lz as int),
        r < CHUNK_X * CHUNK_Z,
{
    lz * CHUNK_X + lx
}

fn block_to_cell(block: BlockID) -> (r: MaterialCell)
    ensures
        r == block::cell_of_block(block),
{
    MaterialCell::from_block_id(block)
}

fn cell_to_block(cell: MaterialCell) -> (r: BlockID)
    ensures
        r == block::block_of_cell(cell),
{
    cell.to_block_id()
}

/// A chunk turned into a field and back is unchanged.
pub proof fn law_chunk_field_round_trip(chunk: Chunk, field: FieldChunk, back: Chunk)
    requires
        chunk.wf(),
        is_field_of(field, chunk),
        is_chunk_of(back, field),
    ensures
        back.blocks@ == chunk.blocks@,
{
    assert forall|i: int| 0 <= i < chunk.blocks@.len() implies back.blocks@[i]
        == chunk.blocks@[i] by {
        let x = i % 16;
        let z = (i / 16) % 16;
        let y = i / 256;
        assert(chunk::local_offset(x, y, z) == i);
        assert(chunk::in_chunk(x, y, z));
        assert(back.block_at(x, y, z) == block::block_of_cell(field.cell_at(x, y, z)));
        assert(holds_column(field.columns@[column_offset(x, z)], chunk, x, z));
        assert(field.columns@[column_offset(x, z)].cell_at(y) == block::cell_of_block(
            chunk.block_at(x, y, z),
        ));
    }
    assert(back.blocks@ =~= chunk.blocks@);
}

/// Writing a cell of a column without overlapping runs is read back, and leaves every other
/// height as it was.
pub proof fn law_column_set_then_get(before: Column, after: Column, y: int, cell: MaterialCell, h: int)
    requires
        before.wf(),
        before.is_disjoint(),
        0 <= y < CHUNK_Y,
        0 <= h < CHUNK_Y,
        after.cell_at(h) == (if h == y {
            cell
        } else {
            before.dense_cell_at(h)
        }),
    ensures
        after.cell_at(h) == (if h == y {
            cell
        } else {
            before.cell_at(h)
        }),
{
    if let Column::Spans(spans) = before {
        law_disjoint_runs_paint_what_they_read(spans@, h);
    }
}

/// Where runs overlap, the first one that covers a height is read; a height that none covers is
/// empty.
pub proof fn law_the_first_run_is_read(spans: Seq<Span>, y: int, i: int)
    ensures
        0 <= i < spans.len() && spans[i].y_start <= y < spans[i].y_start + spans[i].length && (
        forall|j: int| 0 <= j < i ==> !(#[trigger] spans[j]).covers(y)) ==> first_cover(spans, y)
            == spans[i].cell,
        (forall|j: int| 0 <= j < spans.len() ==> !(#[trigger] spans[j]).covers(y)) ==> first_cover(
            spans,
            y,
        ).holds_nothing(),
    decreases spans.len(),
{
    if spans.len() > 0 {
        let rest = spans.drop_first();
        assert forall|j: int| 0 <= j < rest.len() implies (#[trigger] rest[j]) == spans[j + 1] by {}
        law_the_first_run_is_read(rest, y, i - 1);
        if !spans[0].covers(y) {
            if 0 < i < spans.len() && (forall|j: int|
                0 <= j < i ==> !(#[trigger] spans[j]).covers(y)) {
                assert forall|j: int| 0 <= j < i - 1 implies !(#[trigger] rest[j]).covers(y) by {
                    assert(!spans[j + 1].covers(y));
                }
            }
            if forall|j: int| 0 <= j < spans.len() ==> !(#[trigger] spans[j]).covers(y) {
                assert forall|j: int| 0 <= j < rest.len() implies !(#[trigger] rest[j]).covers(
                    y,
                ) by {
                    assert(!spans[j + 1].covers(y));
                }
            }
        }
    }
}

/// Painted one after another, the last run that covers a height is seen.
pub proof fn law_the_last_run_is_painted_over(spans: Seq<Span>, y: int, more: Span)
    ensures
        more.y_start <= y < more.y_start + more.length ==> last_cover(spans.push(more), y)
            == more.cell,
        !(more.y_start <= y < more.y_start + more.length) ==> last_cover(spans.push(more), y)
            == last_cover(spans, y),
        last_cover(Seq::empty(), y).holds_nothing(),
{
    assert(spans.push(more).drop_last() =~= spans);
}

/// What is kept of a cell shows the same block, and is the cell itself unless that holds nothing.
pub proof fn law_kept_cells_look_the_same(cell: MaterialCell)
    ensures
        block::block_of_cell(kept(cell)) == block::block_of_cell(cell),
        block::block_of_cell(cell).0 != 0 ==> kept(cell) == cell,
        kept(kept(cell)) == kept(cell),
{
}

/// Columns are stored line by line, as the blocks of one layer are, and no two in the same place.
pub proof fn law_columns_are_stored_by_line(lx: int, ly: int, lz: int, ox: int, oz: int)
    ensures
        column_offset(0, 0) == 0,
        column_offset(lx + 1, lz) == column_offset(lx, lz) + 1,
        column_offset(lx, lz + 1) == column_offset(lx, lz) + CHUNK_X,
        chunk::local_offset(lx, ly, lz) == ly * (CHUNK_X * CHUNK_Z) + column_offset(lx, lz),
        0 <= lx < 16 && 0 <= lz < 16 ==> 0 <= column_offset(lx, lz) < CHUNK_X * CHUNK_Z,
        0 <= lx < 16 && 0 <= ox < 16 && column_offset(lx, lz) == column_offset(ox, oz) ==> lx == ox
            && lz == oz,
{
}

/// The runs of a column lie one above the other, none is empty, and two that touch differ: no run
/// could be longer.
pub proof fn law_runs_cannot_be_joined(
    spans: Seq<Span>,
    cells: Seq<MaterialCell>,
    i: int,
    j: int,
    y: int,
)
    requires
        lists_runs(spans, cells, cells.len() as int),
        0 <= i < j < spans.len(),
        spans[i].y_start <= y < spans[i].y_start + spans[i].length,
    ensures
        spans[i].y_start + spans[i].length <= spans[j].y_start,
        spans[i].y_start + spans[i].length == spans[j].y_start ==> spans[i].cell != spans[j].cell,
        spans[i].length > 0 && spans[j].length > 0,
        spans[j].y_start + spans[j].length <= cells.len(),
        !spans[i].cell.holds_nothing(),
        cells[y] == spans[i].cell,
        spans[i].y_start > 0 ==> cells[spans[i].y_start - 1] != spans[i].cell,
        cells[spans[i].y_start + spans[i].length] != spans[i].cell,
{
    assert(is_maximal_run(spans[i], cells));
    assert(is_maximal_run(spans[j], cells));
    assert(cells[spans[j].y_start as int] == spans[j].cell);
}

/// The first column that is out of shape is one alone.
pub proof fn law_one_column_is_the_first_out_of_shape(columns: Seq<Column>, i: int, j: int)
    requires
        is_first_misshapen(columns, i),
        is_first_misshapen(columns, j),
    ensures
        i == j,
        0 <= i < columns.len(),
        !columns[i].wf(),
{
    if i < j {
        assert(columns[i].wf());
    }
    if j < i {
        assert(columns[j].wf());
    }
}

} // verus!

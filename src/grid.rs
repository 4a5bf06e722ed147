use vstd::arithmetic::div_mod::lemma_fundamental_div_mod_converse;
use vstd::prelude::*;

verus! {

/// Why a slicing request is rejected before any work is done.
#[derive(Clone, Copy, Debug, PartialEq, Eq, Structural)]
pub enum SliceError {
    /// `rows` or `columns` is zero: there is no grid to cut.
    EmptyGrid,
    /// The input path has no file name to name the output directory after.
    NoFileStem,
}

/// The size in pixels shared by every tile of a grid.
#[derive(Clone, Copy, Debug, PartialEq, Eq, Structural)]
pub struct TileSize {
    pub width: u32,
    pub height: u32,
}

/// One cell of the grid, in source-image pixel coordinates.
#[derive(Clone, Copy, Debug, PartialEq, Eq, Structural)]
pub struct Tile {
    pub col_index: u32,
    pub row_index: u32,
    pub x: u32,
    pub y: u32,
    pub width: u32,
    pub height: u32,
}

/// `t` is the cell at (`col`, `row`) of a grid whose tiles are `tw × th`.
pub open spec fn tile_matches(t: Tile, col: int, row: int, tw: int, th: int) -> bool {
    &&& t.col_index == col
    &&& t.row_index == row
    &&& t.x == col * tw
    &&& t.y == row * th
    &&& t.width == tw
    &&& t.height == th
}

/// The column visited at step `k`: columns outer, rows inner.
pub open spec fn cell_col(k: int, rows: int) -> int {
    k / rows
}

/// The row visited at step `k`.
pub open spec fn cell_row(k: int, rows: int) -> int {
    k % rows
}

/// `tiles` is the full grid over a `width × height` image, in visiting order,
/// each tile `width / columns` by `height / rows` (remainders dropped).
pub open spec fn is_tile_plan(tiles: Seq<Tile>, width: int, height: int, rows: int, columns: int) -> bool {
    &&& rows > 0
    &&& columns > 0
    &&& tiles.len() == rows * columns
    &&& forall|k: int|
        0 <= k < tiles.len() ==> tile_matches(
            #[trigger] tiles[k],
            cell_col(k, rows),
            cell_row(k, rows),
            width / columns,
            height / rows,
        )
}

/// The visiting step of cell (`col`, `row`) is `col * rows + row`.
pub proof fn lemma_cell_of_step(col: int, row: int, rows: int)
    requires
        0 <= col,
        0 <= row < rows,
    ensures
        cell_col(col * rows + row, rows) == col,
        cell_row(col * rows + row, rows) == row,
{
    lemma_fundamental_div_mod_converse(col * rows + row, rows, col, row);
}

/// The tile size of a grid: `width / columns` by `height / rows`, truncating.
pub fn compute_tile_size(width: u32, height: u32, rows: u32, columns: u32) -> (r: Result<
    TileSize,
    SliceError,
>)
    ensures
        r is Err <==> (rows == 0 || columns == 0),
        r matches Err(e) ==> e == SliceError::EmptyGrid,
        r matches Ok(s) ==> s.width == width / columns && s.height == height / rows,
{
    if rows == 0 || columns == 0 {
        return Err(SliceError::EmptyGrid);
    }
    Ok(TileSize { width: width / columns, height: height / rows })
}

/// The origin of a cell stays inside the image: `col * (width / columns) +
/// width / columns <= width` for every `col < columns`.
pub proof fn lemma_cell_fits(col: int, columns: int, width: int)
    requires
        0 <= col < columns,
        0 <= width,
    ensures
        col * (width / columns) + width / columns <= width,
        0 <= col * (width / columns),
{
    let t = width / columns;
    assert(0 <= t) by (nonlinear_arith)
        requires
            0 <= width,
            0 < columns,
            t == width / columns,
    ;
    assert(columns * t <= width) by (nonlinear_arith)
        requires
            0 <= width,
            0 < columns,
            t == width / columns,
    ;
    assert(col * t + t <= columns * t) by (nonlinear_arith)
        requires
            0 <= col < columns,
            0 <= t,
    ;
    assert(0 <= col * t) by (nonlinear_arith)
        requires
            0 <= col,
            0 <= t,
    ;
}

/// The cell at (`col_index`, `row_index`) of the grid over a `width × height`
/// image: its origin is `(col_index * tile width, row_index * tile height)`.
pub fn tile_at(width: u32, height: u32, rows: u32, columns: u32, col_index: u32, row_index: u32) -> (t: Tile)
    requires
        col_index < columns,
        row_index < rows,
    ensures
        tile_matches(t, col_index as int, row_index as int, (width / columns) as int, (height / rows) as int),
        t.x + t.width <= width,
        t.y + t.height <= height,
{
    let tw = width / columns;
    let th = height / rows;
    proof {
        lemma_cell_fits(col_index as int, columns as int, width as int);
        lemma_cell_fits(row_index as int, rows as int, height as int);
    }
    Tile { col_index, row_index, x: col_index * tw, y: row_index * th, width: tw, height: th }
}

/// Every cell of a `rows × columns` grid as `(col_index, row_index)`, all rows
/// of column 0 first, then column 1, and so on.
pub fn enumerate_tiles(rows: u32, columns: u32) -> (cells: Vec<(u32, u32)>)
    ensures
        cells@.len() == rows * columns,
        forall|k: int|
            0 <= k < cells@.len() ==> #[trigger] cells@[k] == (
                cell_col(k, rows as int) as u32,
                cell_row(k, rows as int) as u32,
            ),
{
    let mut cells: Vec<(u32, u32)> = Vec::new();
    let mut col: u32 = 0;
    while col < columns
        invariant
            col <= columns,
            cells@.len() == col * rows,
            forall|k: int|
                0 <= k < cells@.len() ==> #[trigger] cells@[k] == (
                    cell_col(k, rows as int) as u32,
                    cell_row(k, rows as int) as u32,
                ),
        decreases columns - col,
    {
        let mut row: u32 = 0;
        while row < rows
            invariant
                col < columns,
                row <= rows,
                cells@.len() == col * rows + row,
                forall|k: int|
                    0 <= k < cells@.len() ==> #[trigger] cells@[k] == (
                        cell_col(k, rows as int) as u32,
                        cell_row(k, rows as int) as u32,
                    ),
            decreases rows - row,
        {
            proof {
                lemma_cell_of_step(col as int, row as int, rows as int);
            }
            cells.push((col, row));
            row = row + 1;
        }
        assert(cells@.len() == (col + 1) * rows) by (nonlinear_arith)
            requires
                cells@.len() == col * rows + rows,
        ;
        col = col + 1;
    }
    assert(cells@.len() == rows * columns) by (nonlinear_arith)
        requires
            cells@.len() == col * rows,
            col == columns,
    ;
    cells
}

/// The full tile plan of a `width × height` image cut into `rows × columns`
/// cells, in visiting order; rejected when either count is zero.
pub fn plan_tiles(width: u32, height: u32, rows: u32, columns: u32) -> (r: Result<
    Vec<Tile>,
    SliceError,
>)
    ensures
        r is Err <==> (rows == 0 || columns == 0),
        r matches Err(e) ==> e == SliceError::EmptyGrid,
        r matches Ok(tiles) ==> is_tile_plan(tiles@, width as int, height as int, rows as int, columns as int),
{
    if rows == 0 || columns == 0 {
        return Err(SliceError::EmptyGrid);
    }
    let mut tiles: Vec<Tile> = Vec::new();
    let mut col: u32 = 0;
    while col < columns
        invariant
            0 < rows,
            col <= columns,
            tiles@.len() == col * rows,
            forall|k: int|
                0 <= k < tiles@.len() ==> #[trigger] tile_matches(
                    tiles@[k],
                    cell_col(k, rows as int),
                    cell_row(k, rows as int),
                    (width / columns) as int,
                    (height / rows) as int,
                ),
        decreases columns - col,
    {
        let mut row: u32 = 0;
        while row < rows
            invariant
                col < columns,
                row <= rows,
                tiles@.len() == col * rows + row,
                forall|k: int|
                    0 <= k < tiles@.len() ==> #[trigger] tile_matches(
                        tiles@[k],
                        cell_col(k, rows as int),
                        cell_row(k, rows as int),
                        (width / columns) as int,
                        (height / rows) as int,
                    ),
            decreases rows - row,
        {
            proof {
                lemma_cell_of_step(col as int, row as int, rows as int);
            }
            let t = tile_at(width, height, rows, columns, col, row);
            tiles.push(t);
            row = row + 1;
        }
        assert(tiles@.len() == (col + 1) * rows) by (nonlinear_arith)
            requires
                tiles@.len() == col * rows + rows,
        ;
        col = col + 1;
    }
    assert(tiles@.len() == rows * columns) by (nonlinear_arith)
        requires
            tiles@.len() == col * rows,
            col == columns,
    ;
    Ok(tiles)
}

/// A plan has exactly `rows * columns` tiles, each `width / columns` by
/// `height / rows` pixels.
pub proof fn lemma_grid_count_and_size(tiles: Seq<Tile>, width: int, height: int, rows: int, columns: int)
    requires
        is_tile_plan(tiles, width, height, rows, columns),
    ensures
        tiles.len() == rows * columns,
        forall|k: int|
            0 <= k < tiles.len() ==> (#[trigger] tiles[k]).width == width / columns && tiles[k].height
                == height / rows,
{
    assert forall|k: int| 0 <= k < tiles.len() implies (#[trigger] tiles[k]).width == width / columns
        && tiles[k].height == height / rows by {
        assert(tile_matches(tiles[k], cell_col(k, rows), cell_row(k, rows), width / columns, height / rows));
    }
}

/// Every tile of a plan lies inside the image, and inside the part of it
/// that the grid covers: `columns * (width / columns)` by `rows * (height /
/// rows)`. What is left over, `width % columns` columns and `height % rows`
/// rows of pixels, belongs to no tile.
pub proof fn lemma_tiles_inside_image(tiles: Seq<Tile>, width: int, height: int, rows: int, columns: int)
    requires
        is_tile_plan(tiles, width, height, rows, columns),
        0 <= width,
        0 <= height,
    ensures
        forall|k: int|
            0 <= k < tiles.len() ==> (#[trigger] tiles[k]).x + tiles[k].width <= columns * (width / columns)
                && tiles[k].y + tiles[k].height <= rows * (height / rows),
        columns * (width / columns) + width % columns == width,
        rows * (height / rows) + height % rows == height,
        0 <= width % columns < columns,
        0 <= height % rows < rows,
        columns * (width / columns) <= width,
        rows * (height / rows) <= height,
{
    assert forall|k: int| 0 <= k < tiles.len() implies (#[trigger] tiles[k]).x + tiles[k].width <= columns
        * (width / columns) && tiles[k].y + tiles[k].height <= rows * (height / rows) by {
        let c = cell_col(k, rows);
        let r = cell_row(k, rows);
        assert(tile_matches(tiles[k], c, r, width / columns, height / rows));
        assert(c < columns) by (nonlinear_arith)
            requires
                0 <= k < rows * columns,
                0 < rows,
                c == k / rows,
        ;
        assert(0 <= r < rows);
        let tw = width / columns;
        let th = height / rows;
        assert(0 <= tw && 0 <= th) by (nonlinear_arith)
            requires
                0 <= width,
                0 <= height,
                0 < rows,
                0 < columns,
                tw == width / columns,
                th == height / rows,
        ;
        assert(c * tw + tw <= columns * tw) by (nonlinear_arith)
            requires
                c < columns,
                0 <= tw,
        ;
        assert(r * th + th <= rows * th) by (nonlinear_arith)
            requires
                r < rows,
                0 <= th,
        ;
    }
    vstd::arithmetic::div_mod::lemma_fundamental_div_mod(width, columns);
    vstd::arithmetic::div_mod::lemma_fundamental_div_mod(height, rows);
}

} // verus!

use crate::grid::{
    cell_col, cell_row, compute_tile_size, is_tile_plan, lemma_cell_of_step, plan_tiles, tile_matches, SliceError, Tile,
    TileSize,
};
use crate::naming::{
    lemma_tile_file_name_injective, output_dir, output_dir_spec, summary_line, summary_line_spec, tile_file_name,
    tile_file_name_spec,
};
use crate::raster::{image_height, image_width};
use vstd::prelude::*;

verus! {

/// Everything a run needs before it touches the disk: where the tiles go,
/// their size, the cells to cut, the file name of each and the closing line.
pub struct SlicePlan {
    pub output_dir: String,
    pub tile_size: TileSize,
    pub tiles: Vec<Tile>,
    pub file_names: Vec<String>,
    pub summary: String,
}

/// `p` is the plan for slicing the `width × height` image at `path` into
/// `rows × columns` tiles.
pub open spec fn is_slice_plan(p: SlicePlan, path: Seq<char>, width: int, height: int, rows: int, columns: int) -> bool {
    &&& output_dir_spec(path) == Some(p.output_dir@)
    &&& p.tile_size.width == width / columns
    &&& p.tile_size.height == height / rows
    &&& is_tile_plan(p.tiles@, width, height, rows, columns)
    &&& p.file_names@.len() == p.tiles@.len()
    &&& forall|k: int|
        0 <= k < p.tiles@.len() ==> (#[trigger] p.file_names@[k])@ == tile_file_name_spec(
            p.tiles@[k].col_index as nat,
            p.tiles@[k].row_index as nat,
        )
    &&& p.summary@ == summary_line_spec(
        path,
        (rows * columns) as nat,
        (width / columns) as nat,
        (height / rows) as nat,
    )
}

/// The plan for slicing the `width × height` image at `input_path` into
/// `rows × columns` tiles. A zero count is rejected first, then a path
/// without a base name.
pub fn plan_slicing(input_path: &str, width: u32, height: u32, rows: u32, columns: u32) -> (r: Result<
    SlicePlan,
    SliceError,
>)
    ensures
        r is Err <==> (rows == 0 || columns == 0 || output_dir_spec(input_path@) is None),
        r matches Err(e) ==> (e == SliceError::EmptyGrid <==> (rows == 0 || columns == 0)),
        r matches Err(e) ==> (e == SliceError::EmptyGrid || e == SliceError::NoFileStem),
        r matches Ok(p) ==> is_slice_plan(
            p,
            input_path@,
            width as int,
            height as int,
            rows as int,
            columns as int,
        ),
{
    let tile_size = match compute_tile_size(width, height, rows, columns) {
        Ok(s) => s,
        Err(e) => return Err(e),
    };
    let dir = match output_dir(input_path) {
        Ok(d) => d,
        Err(e) => return Err(e),
    };
    let tiles = match plan_tiles(width, height, rows, columns) {
        Ok(t) => t,
        Err(e) => return Err(e),
    };
    let mut file_names: Vec<String> = Vec::new();
    let mut k: usize = 0;
    while k < tiles.len()
        invariant
            k <= tiles@.len(),
            file_names@.len() == k,
            forall|i: int|
                0 <= i < k ==> (#[trigger] file_names@[i])@ == tile_file_name_spec(
                    tiles@[i].col_index as nat,
                    tiles@[i].row_index as nat,
                ),
        decreases tiles@.len() - k,
    {
        let t = &tiles[k];
        file_names.push(tile_file_name(t.col_index, t.row_index));
        k = k + 1;
    }
    let summary = summary_line(input_path, rows, columns, tile_size.width, tile_size.height);
    Ok(SlicePlan { output_dir: dir, tile_size, tiles, file_names, summary })
}

/// The plan for slicing the decoded image `img`, read from `input_path`, into
/// `rows × columns` tiles.
pub fn plan_image_slicing(img: &image::DynamicImage, input_path: &str, rows: u32, columns: u32) -> (r: Result<
    SlicePlan,
    SliceError,
>)
    ensures
        r is Err <==> (rows == 0 || columns == 0 || output_dir_spec(input_path@) is None),
        r matches Err(e) ==> (e == SliceError::EmptyGrid <==> (rows == 0 || columns == 0)),
        r matches Err(e) ==> (e == SliceError::EmptyGrid || e == SliceError::NoFileStem),
        r matches Ok(p) ==> is_slice_plan(
            p,
            input_path@,
            image_width(*img) as int,
            image_height(*img) as int,
            rows as int,
            columns as int,
        ),
{
    plan_slicing(input_path, img.width(), img.height(), rows, columns)
}

/// A run writes one file per tile: no two tiles of a plan share a file
/// name, so exactly `rows * columns` files are written.
pub proof fn lemma_one_file_per_tile(
    p: SlicePlan,
    path: Seq<char>,
    width: int,
    height: int,
    rows: int,
    columns: int,
    i: int,
    j: int,
)
    requires
        is_slice_plan(p, path, width, height, rows, columns),
        0 <= i < p.tiles@.len(),
        0 <= j < p.tiles@.len(),
        i != j,
    ensures
        p.file_names@.len() == rows * columns,
        p.file_names@[i]@ != p.file_names@[j]@,
{
    let tw = width / columns;
    let th = height / rows;
    assert(tile_matches(p.tiles@[i], cell_col(i, rows), cell_row(i, rows), tw, th));
    assert(tile_matches(p.tiles@[j], cell_col(j, rows), cell_row(j, rows), tw, th));
    assert(p.file_names@[i]@ == tile_file_name_spec(p.tiles@[i].col_index as nat, p.tiles@[i].row_index as nat));
    assert(p.file_names@[j]@ == tile_file_name_spec(p.tiles@[j].col_index as nat, p.tiles@[j].row_index as nat));
    if p.file_names@[i]@ == p.file_names@[j]@ {
        lemma_tile_file_name_injective(
            p.tiles@[i].col_index as nat,
            p.tiles@[i].row_index as nat,
            p.tiles@[j].col_index as nat,
            p.tiles@[j].row_index as nat,
        );
        vstd::arithmetic::div_mod::lemma_fundamental_div_mod(i, rows);
        vstd::arithmetic::div_mod::lemma_fundamental_div_mod(j, rows);
    }
}

/// Every cell of the grid gets its file: for each `col < columns` and
/// `row < rows` the plan holds the tile at (`col`, `row`), to be written as
/// `subimage_<col+1>_<row+1>.jpg`.
pub proof fn lemma_every_cell_has_file(
    p: SlicePlan,
    path: Seq<char>,
    width: int,
    height: int,
    rows: int,
    columns: int,
    col: int,
    row: int,
)
    requires
        is_slice_plan(p, path, width, height, rows, columns),
        0 <= col < columns,
        0 <= row < rows,
    ensures
        exists|k: int|
            0 <= k < p.tiles@.len() && (#[trigger] p.tiles@[k]).col_index == col && p.tiles@[k].row_index == row
                && p.file_names@[k]@ == tile_file_name_spec(col as nat, row as nat),
{
    let k = col * rows + row;
    lemma_cell_of_step(col, row, rows);
    assert(k < rows * columns) by (nonlinear_arith)
        requires
            k == col * rows + row,
            0 <= col < columns,
            0 <= row < rows,
    ;
    assert(tile_matches(p.tiles@[k], cell_col(k, rows), cell_row(k, rows), width / columns, height / rows));
    assert(p.file_names@[k]@ == tile_file_name_spec(p.tiles@[k].col_index as nat, p.tiles@[k].row_index as nat));
}

/// Running again with the same arguments writes the same files: the output
/// directory and the file names depend on the path and the grid alone, not
/// on the image, and on an image of the same size the tiles and the summary
/// are the same too.
pub proof fn lemma_rerun_writes_same_files(
    p1: SlicePlan,
    p2: SlicePlan,
    path: Seq<char>,
    w1: int,
    h1: int,
    w2: int,
    h2: int,
    rows: int,
    columns: int,
)
    requires
        is_slice_plan(p1, path, w1, h1, rows, columns),
        is_slice_plan(p2, path, w2, h2, rows, columns),
    ensures
        p1.output_dir@ == p2.output_dir@,
        p1.file_names@.map_values(|s: String| s@) == p2.file_names@.map_values(|s: String| s@),
        w1 == w2 && h1 == h2 ==> p1.tiles@ == p2.tiles@ && p1.summary@ == p2.summary@,
{
    assert forall|k: int| 0 <= k < p1.tiles@.len() implies (#[trigger] p1.file_names@[k])@
        == p2.file_names@[k]@ by {
        assert(tile_matches(p1.tiles@[k], cell_col(k, rows), cell_row(k, rows), w1 / columns, h1 / rows));
        assert(tile_matches(p2.tiles@[k], cell_col(k, rows), cell_row(k, rows), w2 / columns, h2 / rows));
        assert(p2.file_names@[k]@ == tile_file_name_spec(p2.tiles@[k].col_index as nat, p2.tiles@[k].row_index as nat));
    }
    assert(p1.file_names@.map_values(|s: String| s@) =~= p2.file_names@.map_values(|s: String| s@));
    if w1 == w2 && h1 == h2 {
        assert forall|k: int| 0 <= k < p1.tiles@.len() implies #[trigger] p1.tiles@[k] == p2.tiles@[k] by {
            assert(tile_matches(p1.tiles@[k], cell_col(k, rows), cell_row(k, rows), w1 / columns, h1 / rows));
            assert(tile_matches(p2.tiles@[k], cell_col(k, rows), cell_row(k, rows), w2 / columns, h2 / rows));
        }
        assert(p1.tiles@ =~= p2.tiles@);
    }
}

} // verus!

//! Laws of what a viewport shows.
use vstd::prelude::*;

use crate::geometry::SizeInPixels;
use crate::grid::GridView;
use crate::protocol::KittyFormat;
use crate::viewport::{self, ChunkView, KittyImageChunk, Viewport};

verus! {

impl Viewport {
    /// Whether the pixel in column `px` and row `py` lies in the window.
    pub open spec fn contains_pixel(self, px: int, py: int) -> bool {
        0 <= px < self.right() && self.top() <= py < self.bottom()
    }
}

/// The window that some arguments describe: its pixel rows start below the lines
/// that have scrolled out, and its size is that of its cells.
pub proof fn law_window_of_arguments(
    scrollback_lines: usize,
    rows: usize,
    columns: usize,
    x_offset: usize,
    y_offset: usize,
    cell: SizeInPixels,
)
    ensures
        ({
            let viewport = viewport::viewport_of(
                scrollback_lines,
                rows,
                columns,
                x_offset,
                y_offset,
                cell,
            );
            &&& viewport.top() == scrollback_lines * cell.height
            &&& viewport.bottom() == scrollback_lines * cell.height + rows * cell.height
            &&& viewport.right() == columns * cell.width
            &&& viewport.has_cells() <==> cell.width != 0 && cell.height != 0
            &&& viewport.rows == rows && viewport.columns == columns
            &&& viewport.x_offset == x_offset && viewport.y_offset == y_offset
            &&& viewport.cell == cell
        }),
{
}

/// A visible placement carries what its stored image is: its id, its `f=` value,
/// whether it came with `o=z`, its payload byte for byte, and its native size,
/// or that of the footprint where it is unknown. It also carries its own number,
/// its footprint, and whether it is scaled.
pub proof fn law_chunk_carries_its_image(grid: GridView, viewport: Viewport, index: int)
    requires
        0 <= index < grid.placements.len(),
        grid.chunk(viewport, index) is Some,
    ensures
        ({
            let chunk = grid.chunk(viewport, index)->0;
            let placement = grid.placements[index];
            let image = grid.images[placement.image_id];
            &&& grid.images.contains_key(placement.image_id)
            &&& chunk.source_image_id == placement.image_id
            &&& chunk.placement_id == index + 1
            &&& chunk.format == (match image.control.format {
                KittyFormat::Rgb => 24u32,
                KittyFormat::Rgba => 32u32,
                KittyFormat::Png => 100u32,
            })
            &&& chunk.compressed == image.control.compressed
            &&& chunk.payload == image.payload
            &&& match image.dimensions {
                Some((width, height)) => chunk.full_width == width && chunk.full_height == height,
                None => chunk.full_width == placement.rect.width as u32 && chunk.full_height
                    == placement.rect.height as u32,
            }
            &&& chunk.disp_width == placement.rect.width
            &&& chunk.disp_height == placement.rect.height
            &&& chunk.scaled == placement.scaled
        }),
{
}

/// The crop of a chunk is the whole of what is visible: a pixel lies in the
/// window and in the placement exactly if it lies in the crop.
pub proof fn law_crop_is_what_is_visible(
    grid: GridView,
    viewport: Viewport,
    index: int,
    px: int,
    py: int,
)
    requires
        0 <= index < grid.placements.len(),
        grid.chunk(viewport, index) is Some,
    ensures
        ({
            let chunk = grid.chunk(viewport, index)->0;
            let rect = grid.placements[index].rect;
            rect.covers(px, py) && viewport.contains_pixel(px, py) <==> {
                &&& rect.x + chunk.src_x <= px < rect.x + chunk.src_x + chunk.src_width
                &&& rect.y + chunk.src_y <= py < rect.y + chunk.src_y + chunk.src_height
            }
        }),
{
}

/// The cell of a chunk is the one that holds the first pixel of its crop.
pub proof fn law_cell_holds_the_corner(grid: GridView, viewport: Viewport, index: int)
    requires
        0 <= index < grid.placements.len(),
        viewport.has_cells(),
        grid.chunk(viewport, index) is Some,
    ensures
        ({
            let chunk = grid.chunk(viewport, index)->0;
            let rect = grid.placements[index].rect;
            let column = chunk.cell_x - viewport.x_offset;
            let row = chunk.cell_y - viewport.y_offset;
            &&& column * viewport.cell.width <= rect.x + chunk.src_x < (column + 1)
                * viewport.cell.width
            &&& viewport.top() + row * viewport.cell.height <= rect.y + chunk.src_y
                < viewport.top() + (row + 1) * viewport.cell.height
        }),
{
    broadcast use vstd::arithmetic::mul::lemma_mul_is_commutative;

    let rect = grid.placements[index].rect;
    let top = vstd::math::max(rect.y as int, viewport.top());
    let width = viewport.cell.width as int;
    let height = viewport.cell.height as int;
    let below = top - viewport.top();
    vstd::arithmetic::div_mod::lemma_fundamental_div_mod(rect.x as int, width);
    vstd::arithmetic::div_mod::lemma_fundamental_div_mod(below, height);
    vstd::arithmetic::div_mod::lemma_mod_bound(rect.x as int, width);
    vstd::arithmetic::div_mod::lemma_mod_bound(below, height);
    vstd::arithmetic::mul::lemma_mul_is_distributive_add(width, rect.x as int / width, 1);
    vstd::arithmetic::mul::lemma_mul_is_distributive_add(height, below / height, 1);
}

/// A viewport shows each visible placement once, in order; it shows nothing
/// exactly where no placement is visible or cells have no area.
pub proof fn law_viewport_shows_each_visible_placement(
    grid: GridView,
    viewport: Viewport,
    index: int,
    i: int,
    j: int,
)
    requires
        0 <= i < j,
    ensures
        ({
            let shown = grid.visible_chunks(viewport);
            let area = viewport.cell.width > 0 && viewport.cell.height > 0;
            &&& !area ==> shown.len() == 0
            &&& j < shown.len() ==> shown[i].placement_id < shown[j].placement_id
            &&& j < shown.len() ==> {
                &&& 1 <= shown[j].placement_id <= grid.placements.len()
                &&& grid.chunk(viewport, shown[j].placement_id - 1) == Some(shown[j])
            }
            &&& i < shown.len() ==> {
                &&& 1 <= shown[i].placement_id <= grid.placements.len()
                &&& grid.chunk(viewport, shown[i].placement_id - 1) == Some(shown[i])
            }
            &&& area && 0 <= index < grid.placements.len() && grid.chunk(viewport, index) is Some
                ==> shown.contains(grid.chunk(viewport, index)->0)
        }),
{
    law_one_chunk_per_visible_placement(grid, viewport, grid.placements.len() as int);
}

/// A placement is visible exactly if its image is stored and some pixel of its
/// rectangle lies in the window.
pub proof fn law_visible_if_a_pixel_shows(grid: GridView, viewport: Viewport, index: int)
    requires
        0 <= index < grid.placements.len(),
    ensures
        grid.chunk(viewport, index) is Some <==> {
            &&& grid.images.contains_key(grid.placements[index].image_id)
            &&& exists|px: int, py: int| #[trigger]
                grid.placements[index].rect.covers(px, py) && viewport.contains_pixel(px, py)
        },
{
    let rect = grid.placements[index].rect;
    if grid.chunk(viewport, index) is Some {
        let top = vstd::math::max(rect.y as int, viewport.top());
        assert(rect.covers(rect.x as int, top));
        assert(viewport.contains_pixel(rect.x as int, top));
    }
}

/// A chunk lies in its placement and in the window: it is not empty, its crop
/// ends where the placement or the window ends, and its cell is one of the
/// window's.
pub proof fn law_chunk_is_clipped(grid: GridView, viewport: Viewport, index: int)
    requires
        0 <= index < grid.placements.len(),
        viewport.has_cells(),
        grid.chunk(viewport, index) is Some,
    ensures
        ({
            let chunk = grid.chunk(viewport, index)->0;
            let rect = grid.placements[index].rect;
            &&& chunk.src_x == 0 && 0 < chunk.src_width <= chunk.disp_width == rect.width
            &&& 0 <= chunk.src_y && 0 < chunk.src_height
            &&& chunk.src_y + chunk.src_height <= chunk.disp_height == rect.height
            &&& rect.x + chunk.src_width <= viewport.right()
            &&& viewport.top() <= rect.y + chunk.src_y
            &&& rect.y + chunk.src_y + chunk.src_height <= viewport.bottom()
            &&& viewport.x_offset <= chunk.cell_x < viewport.x_offset + viewport.columns
            &&& viewport.y_offset <= chunk.cell_y < viewport.y_offset + viewport.rows
        }),
{
    broadcast use vstd::arithmetic::mul::lemma_mul_is_commutative;

    let rect = grid.placements[index].rect;
    let top = vstd::math::max(rect.y as int, viewport.top());
    let width = viewport.cell.width as int;
    let height = viewport.cell.height as int;
    vstd::arithmetic::div_mod::lemma_div_pos_is_pos(rect.x as int, width);
    vstd::arithmetic::div_mod::lemma_div_pos_is_pos(top - viewport.top(), height);
    vstd::arithmetic::div_mod::lemma_multiply_divide_lt(rect.x as int, width, viewport.columns);
    vstd::arithmetic::div_mod::lemma_multiply_divide_lt(
        top - viewport.top(),
        height,
        viewport.rows,
    );
}

/// Where the pixels and the cells of the window, and the placements, can be
/// counted in machine integers, so can all that the window shows.
pub proof fn law_showable(grid: GridView, viewport: Viewport)
    requires
        viewport.has_cells(),
        viewport.bottom() <= isize::MAX,
        viewport.right() <= usize::MAX,
        viewport.x_offset + viewport.columns - 1 <= usize::MAX,
        viewport.y_offset + viewport.rows - 1 <= usize::MAX,
        grid.placements.len() <= u32::MAX,
    ensures
        viewport.has_addressable_pixels(),
        viewport.has_addressable_cells(),
        grid.is_showable(viewport),
{
    assert forall|index: int| 0 <= index < grid.placements.len() implies match #[trigger] grid.chunk(
        viewport,
        index,
    ) {
        Some(chunk) => chunk.cell_x <= usize::MAX && chunk.cell_y <= usize::MAX
            && chunk.placement_id <= u32::MAX,
        None => true,
    } by {
        if grid.chunk(viewport, index) is Some {
            law_chunk_is_clipped(grid, viewport, index);
        }
    }
}

/// What a window shows can be told in machine integers exactly if its pixel
/// edges can, and the cell and the number of each visible placement.
pub proof fn law_what_can_be_shown(grid: GridView, viewport: Viewport)
    ensures
        grid.is_showable(viewport) <==> {
            &&& viewport.bottom() <= isize::MAX
            &&& viewport.right() <= usize::MAX
            &&& forall|i: int|
                0 <= i < grid.placements.len() && (#[trigger] grid.chunk(viewport, i)) is Some ==> {
                    let chunk = grid.chunk(viewport, i)->0;
                    chunk.cell_x <= usize::MAX && chunk.cell_y <= usize::MAX
                        && chunk.placement_id <= u32::MAX
                }
        },
{
}

/// The chunks stand in the order of the placements, one for each visible
/// placement: their numbers rise, each is the chunk of the placement with its
/// number, and no visible placement is left out.
pub proof fn law_one_chunk_per_visible_placement(grid: GridView, viewport: Viewport, n: int)
    requires
        0 <= n <= grid.placements.len(),
    ensures
        forall|i: int, j: int|
            0 <= i < j < grid.chunks(viewport, n).len() ==> (#[trigger] grid.chunks(
                viewport,
                n,
            )[i]).placement_id < (#[trigger] grid.chunks(viewport, n)[j]).placement_id,
        forall|i: int|
            0 <= i < grid.chunks(viewport, n).len() ==> {
                let chunk = #[trigger] grid.chunks(viewport, n)[i];
                1 <= chunk.placement_id <= n && grid.chunk(viewport, chunk.placement_id - 1)
                    == Some(chunk)
            },
        forall|index: int|
            0 <= index < n ==> match #[trigger] grid.chunk(viewport, index) {
                Some(chunk) => grid.chunks(viewport, n).contains(chunk),
                None => true,
            },
    decreases n,
{
    if n > 0 {
        law_one_chunk_per_visible_placement(grid, viewport, n - 1);
        let before = grid.chunks(viewport, n - 1);
        let all = grid.chunks(viewport, n);
        assert forall|chunk: ChunkView| before.contains(chunk) implies all.contains(chunk) by {
            let i = choose|i: int| 0 <= i < before.len() && before[i] == chunk;
            assert(all[i] == chunk);
        }
        if let Some(chunk) = grid.chunk(viewport, n - 1) {
            assert(all[before.len() as int] == chunk);
            assert forall|i: int| 0 <= i < before.len() implies all[i] == before[i] by {}
        }
    }
}

/// A chunk is seen field by field as it is, and so is a list of them.
pub proof fn law_chunk_view(chunk: KittyImageChunk, chunks: Seq<KittyImageChunk>, i: int)
    requires
        0 <= i < chunks.len(),
    ensures
        chunk@.cell_x == chunk.cell_x,
        chunk@.cell_y == chunk.cell_y,
        chunk@.source_image_id == chunk.source_image_id,
        chunk@.placement_id == chunk.placement_id,
        chunk@.format == chunk.format,
        chunk@.compressed == chunk.compressed,
        chunk@.full_width == chunk.full_width,
        chunk@.full_height == chunk.full_height,
        chunk@.disp_width == chunk.disp_width,
        chunk@.disp_height == chunk.disp_height,
        chunk@.scaled == chunk.scaled,
        chunk@.src_x == chunk.src_x,
        chunk@.src_y == chunk.src_y,
        chunk@.src_width == chunk.src_width,
        chunk@.src_height == chunk.src_height,
        chunk@.payload == chunk.payload_b64@,
        viewport::chunks_view(chunks).len() == chunks.len(),
        viewport::chunks_view(chunks)[i] == chunks[i]@,
{
}

/// A cleared grid shows nothing.
pub proof fn law_cleared_grid_shows_nothing(
    grid: GridView,
    cleared: GridView,
    viewport: Viewport,
)
    requires
        grid.is_cleared_to(cleared),
    ensures
        cleared.visible_chunks(viewport).len() == 0,
{
}

} // verus!

//! The part of a grid's placements that a viewport shows.
use vstd::prelude::*;

use crate::geometry::SizeInPixels;
use crate::grid::{GridView, KittyGrid};
use crate::protocol::KittyFormat;

verus! {

/// One visible placement, clipped to the viewport.
#[derive(Debug, Clone, PartialEq, Eq)]
pub struct KittyImageChunk {
    /// The cell of the visible top left corner.
    pub cell_x: usize,
    pub cell_y: usize,
    pub source_image_id: u32,
    /// The position of the placement in the grid, counted from one.
    pub placement_id: u32,
    /// The `f=` value of the image.
    pub format: u32,
    pub compressed: bool,
    /// The native size of the image, or that of its display footprint where it
    /// is not known.
    pub full_width: usize,
    pub full_height: usize,
    /// The display footprint of the whole placement.
    pub disp_width: usize,
    pub disp_height: usize,
    /// Whether the application asked for scaling into cells.
    pub scaled: bool,
    /// The visible part of the display footprint.
    pub src_x: usize,
    pub src_y: usize,
    pub src_width: usize,
    pub src_height: usize,
    pub payload_b64: Vec<u8>,
}

/// The contents of a [`KittyImageChunk`].
pub struct ChunkView {
    pub cell_x: int,
    pub cell_y: int,
    pub source_image_id: u32,
    pub placement_id: int,
    pub format: u32,
    pub compressed: bool,
    pub full_width: int,
    pub full_height: int,
    pub disp_width: int,
    pub disp_height: int,
    pub scaled: bool,
    pub src_x: int,
    pub src_y: int,
    pub src_width: int,
    pub src_height: int,
    pub payload: Seq<u8>,
}

impl View for KittyImageChunk {
    type V = ChunkView;

    open spec fn view(&self) -> ChunkView {
        ChunkView {
            cell_x: self.cell_x as int,
            cell_y: self.cell_y as int,
            source_image_id: self.source_image_id,
            placement_id: self.placement_id as int,
            format: self.format,
            compressed: self.compressed,
            full_width: self.full_width as int,
            full_height: self.full_height as int,
            disp_width: self.disp_width as int,
            disp_height: self.disp_height as int,
            scaled: self.scaled,
            src_x: self.src_x as int,
            src_y: self.src_y as int,
            src_width: self.src_width as int,
            src_height: self.src_height as int,
            payload: self.payload_b64@,
        }
    }
}

/// The chunks of a list.
pub open spec fn chunks_view(chunks: Seq<KittyImageChunk>) -> Seq<ChunkView> {
    chunks.map_values(|chunk: KittyImageChunk| chunk@)
}

/// A window of cells over a grid: the lines that have scrolled out above it,
/// its size in cells, and the cell of the screen that its top left corner has.
pub struct Viewport {
    pub scrollback_lines: int,
    pub rows: int,
    pub columns: int,
    pub x_offset: int,
    pub y_offset: int,
    pub cell: SizeInPixels,
}

impl Viewport {
    /// The first pixel row that is visible.
    pub open spec fn top(self) -> int {
        self.scrollback_lines * self.cell.height
    }

    /// The pixel row below the last that is visible.
    pub open spec fn bottom(self) -> int {
        self.top() + self.rows * self.cell.height
    }

    /// The pixel column to the right of the last that is visible.
    pub open spec fn right(self) -> int {
        self.columns * self.cell.width
    }

    /// Whether cells have an area at all.
    pub open spec fn has_cells(self) -> bool {
        self.cell.width > 0 && self.cell.height > 0
    }

    /// Whether the pixel rows and columns of the window are in the range of
    /// machine integers.
    pub open spec fn has_addressable_pixels(self) -> bool {
        self.bottom() <= isize::MAX && self.right() <= usize::MAX
    }

    /// Whether the cells that the window takes on the screen are in the range of
    /// machine integers.
    pub open spec fn has_addressable_cells(self) -> bool {
        self.x_offset + self.columns - 1 <= usize::MAX && self.y_offset + self.rows - 1
            <= usize::MAX
    }
}

/// The viewport that these arguments describe.
pub open spec fn viewport_of(
    scrollback_lines: usize,
    rows: usize,
    columns: usize,
    x_offset: usize,
    y_offset: usize,
    cell: SizeInPixels,
) -> Viewport {
    Viewport {
        scrollback_lines: scrollback_lines as int,
        rows: rows as int,
        columns: columns as int,
        x_offset: x_offset as int,
        y_offset: y_offset as int,
        cell,
    }
}

/// The `f=` value of a format.
pub open spec fn format_number(format: KittyFormat) -> u32 {
    match format {
        KittyFormat::Rgb => 24,
        KittyFormat::Rgba => 32,
        KittyFormat::Png => 100,
    }
}

impl GridView {
    /// The chunk that the placement at `index` contributes: the part of its
    /// rectangle between the upper and the lower edge and left of the right
    /// edge. There is none where that part is empty or the image is not stored.
    pub open spec fn chunk(self, viewport: Viewport, index: int) -> Option<ChunkView> {
        let placement = self.placements[index];
        let rect = placement.rect;
        let image = self.images[placement.image_id];
        let top = vstd::math::max(rect.y as int, viewport.top());
        let bottom = vstd::math::min(rect.y + rect.height, viewport.bottom());
        let width = vstd::math::min(rect.width as int, viewport.right() - rect.x);
        let (full_width, full_height) = match image.dimensions {
            Some((w, h)) => (w, h),
            None => (rect.width as u32, rect.height as u32),
        };
        if self.images.contains_key(placement.image_id) && top < bottom && width > 0 {
            Some(
                ChunkView {
                    cell_x: viewport.x_offset + rect.x as int / viewport.cell.width as int,
                    cell_y: viewport.y_offset + (top - viewport.top())
                        / viewport.cell.height as int,
                    source_image_id: placement.image_id,
                    placement_id: index + 1,
                    format: format_number(image.control.format),
                    compressed: image.control.compressed,
                    full_width: full_width as int,
                    full_height: full_height as int,
                    disp_width: rect.width as int,
                    disp_height: rect.height as int,
                    scaled: placement.scaled,
                    src_x: 0,
                    src_y: top - rect.y,
                    src_width: width,
                    src_height: bottom - top,
                    payload: image.payload,
                },
            )
        } else {
            None
        }
    }

    /// The chunks of the first `n` placements, in their order.
    pub open spec fn chunks(self, viewport: Viewport, n: int) -> Seq<ChunkView>
        decreases n,
    {
        if n <= 0 {
            Seq::empty()
        } else {
            match self.chunk(viewport, n - 1) {
                Some(chunk) => self.chunks(viewport, n - 1).push(chunk),
                None => self.chunks(viewport, n - 1),
            }
        }
    }

    /// Whether machine integers can hold what a viewport shows: its pixel rows
    /// and columns, and the cell and the number of each visible placement.
    pub open spec fn is_showable(self, viewport: Viewport) -> bool {
        &&& viewport.has_addressable_pixels()
        &&& forall|index: int|
            0 <= index < self.placements.len() ==> match #[trigger] self.chunk(viewport, index) {
                Some(chunk) => chunk.cell_x <= usize::MAX && chunk.cell_y <= usize::MAX
                    && chunk.placement_id <= u32::MAX,
                None => true,
            }
    }

    /// All chunks that a viewport shows: none where cells have no area.
    pub open spec fn visible_chunks(self, viewport: Viewport) -> Seq<ChunkView> {
        if viewport.has_cells() {
            self.chunks(viewport, self.placements.len() as int)
        } else {
            Seq::empty()
        }
    }
}

impl KittyGrid {
    /// The chunk of the placement at `index`.
    fn visible_chunk(
        &self,
        index: usize,
        top_px: isize,
        bottom_px: isize,
        right_px: usize,
        x_offset: usize,
        y_offset: usize,
        cell_size: SizeInPixels,
        Ghost(viewport): Ghost<Viewport>,
    ) -> (r: Option<KittyImageChunk>)
        requires
            viewport.has_cells(),
            self@.is_showable(viewport),
            viewport.rows >= 0,
            viewport.columns >= 0,
            top_px == viewport.top(),
            bottom_px == viewport.bottom(),
            right_px == viewport.right(),
            x_offset == viewport.x_offset,
            y_offset == viewport.y_offset,
            cell_size == viewport.cell,
            index < self@.placements.len(),
        ensures
            match r {
                Some(chunk) => self@.chunk(viewport, index as int) == Some(chunk@),
                None => self@.chunk(viewport, index as int) is None,
            },
    {
        let placement = self.placements()[index];
        let image = match self.stored_image(placement.image_id) {
            Some(image) => image,
            None => {
                return None;
            },
        };
        let rect = placement.rect;
        let image_bottom: i128 = rect.y as i128 + rect.height as i128;
        let visible_top: isize = if rect.y >= top_px {
            rect.y
        } else {
            top_px
        };
        let visible_bottom: isize = if image_bottom <= bottom_px as i128 {
            image_bottom as isize
        } else {
            bottom_px
        };
        if visible_bottom <= visible_top {
            return None;
        }
        let src_width: usize = if rect.x >= right_px {
            0
        } else if rect.width <= right_px - rect.x {
            rect.width
        } else {
            right_px - rect.x
        };
        if src_width == 0 {
            return None;
        }
        let src_y: usize = (visible_top as i128 - rect.y as i128) as usize;
        let src_height: usize = (visible_bottom as i128 - visible_top as i128) as usize;
        let below_top: usize = (visible_top as i128 - top_px as i128) as usize;
        assert(self@.chunk(viewport, index as int) is Some);
        let cell_x = x_offset + rect.x / cell_size.width;
        let cell_y = y_offset + below_top / cell_size.height;
        let (full_width, full_height) = match image.dimensions {
            Some((w, h)) => (w, h),
            None => (rect.width as u32, rect.height as u32),
        };
        let format: u32 = match image.control.format {
            KittyFormat::Rgb => 24,
            KittyFormat::Rgba => 32,
            KittyFormat::Png => 100,
        };
        let payload_b64 = vstd::slice::slice_to_vec(image.payload_b64.as_slice());
        Some(
            KittyImageChunk {
                cell_x,
                cell_y,
                source_image_id: placement.image_id,
                placement_id: index as u32 + 1,
                format,
                compressed: image.control.compressed,
                full_width: full_width as usize,
                full_height: full_height as usize,
                disp_width: rect.width,
                disp_height: rect.height,
                scaled: placement.scaled,
                src_x: 0,
                src_y,
                src_width,
                src_height,
                payload_b64,
            },
        )
    }

    /// Produces the chunks of this grid that a viewport shows, one for each
    /// visible placement. A placement is clipped at the upper and the lower edge
    /// of the viewport and at its right edge.
    pub fn visible_kitty_chunks(
        &self,
        scrollback_size_in_lines: usize,
        viewport_rows: usize,
        viewport_width_in_cells: usize,
        viewport_x_offset: usize,
        viewport_y_offset: usize,
        cell_size: SizeInPixels,
    ) -> (r: Vec<KittyImageChunk>)
        requires
            ({
                let viewport = viewport_of(
                    scrollback_size_in_lines,
                    viewport_rows,
                    viewport_width_in_cells,
                    viewport_x_offset,
                    viewport_y_offset,
                    cell_size,
                );
                viewport.has_cells() ==> self@.is_showable(viewport)
            }),
        ensures
            chunks_view(r@) == self@.visible_chunks(
                viewport_of(
                    scrollback_size_in_lines,
                    viewport_rows,
                    viewport_width_in_cells,
                    viewport_x_offset,
                    viewport_y_offset,
                    cell_size,
                ),
            ),
    {
        let ghost viewport = viewport_of(
            scrollback_size_in_lines,
            viewport_rows,
            viewport_width_in_cells,
            viewport_x_offset,
            viewport_y_offset,
            cell_size,
        );
        let mut chunks: Vec<KittyImageChunk> = Vec::new();
        if cell_size.width == 0 || cell_size.height == 0 {
            assert(chunks_view(chunks@) =~= Seq::empty());
            return chunks;
        }
        proof {
            vstd::arithmetic::mul::lemma_mul_nonnegative(
                scrollback_size_in_lines as int,
                cell_size.height as int,
            );
            vstd::arithmetic::mul::lemma_mul_nonnegative(
                viewport_rows as int,
                cell_size.height as int,
            );
            vstd::arithmetic::mul::lemma_mul_nonnegative(
                viewport_width_in_cells as int,
                cell_size.width as int,
            );
        }
        let top_px: isize = (scrollback_size_in_lines * cell_size.height) as isize;
        let bottom_px: isize = top_px + (viewport_rows * cell_size.height) as isize;
        let right_px: usize = viewport_width_in_cells * cell_size.width;
        assert(chunks_view(chunks@) =~= self@.chunks(viewport, 0));
        let count = self.placements().len();
        for index in 0..count
            invariant
                count == self@.placements.len(),
                viewport.has_cells(),
                self@.is_showable(viewport),
                viewport.rows >= 0,
                viewport.columns >= 0,
                top_px == viewport.top(),
                bottom_px == viewport.bottom(),
                right_px == viewport.right(),
                viewport_x_offset == viewport.x_offset,
                viewport_y_offset == viewport.y_offset,
                cell_size == viewport.cell,
                chunks_view(chunks@) == self@.chunks(viewport, index as int),
        {
            let ghost before = chunks@;
            if let Some(chunk) = self.visible_chunk(
                index,
                top_px,
                bottom_px,
                right_px,
                viewport_x_offset,
                viewport_y_offset,
                cell_size,
                Ghost(viewport),
            ) {
                chunks.push(chunk);
                assert(chunks_view(chunks@) =~= chunks_view(before).push(chunk@));
            }
        }
        chunks
    }
}

} // verus!

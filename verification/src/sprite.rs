//! The pixels: raw images, cutting a spritesheet into its cells, compressing
//! the cells, and the file that one sprite is stored in.

use crate::error::{AppearanceError, ErrorView};
use crate::geometry::{
    expected_sheet_size, grid_columns, grid_rows, lemma_cell_of_position, sheet_height, sheet_width,
};
use crate::outside::{crop_rgba, gunzip, gzip, gzip_decode, gzip_encode};
use crate::types::{Orientation, SpriteData, SpriteDataView};
use crate::wire::{
    holds_at, lemma_holds_at_concat, lemma_holds_at_start, lemma_parse_written_u32, parse_bytes,
    parse_u32, too_long, too_long_error, u32_le_bytes, write_bytes, write_u32, ByteReader,
};
use vstd::prelude::*;
use vstd::string::StringExecFns;

verus! {

/// The effort that the compressor spends on a sprite. Another level changes
/// the size of the sprite files and nothing else.
pub const COMPRESSION_LEVEL: u32 = 6;

/// The pixels of the rectangle at (`x`, `y`) of `width` by `height` pixels,
/// row by row, out of an image that is `sheet_width` pixels wide. A pixel is
/// four bytes: red, green, blue, alpha.
pub open spec fn crop_pixels(
    pixels: Seq<u8>,
    sheet_width: int,
    x: int,
    y: int,
    width: int,
    height: int,
) -> Seq<u8> {
    Seq::new(
        (4 * width * height) as nat,
        |i: int| pixels[4 * ((y + (i / 4) / width) * sheet_width + x + (i / 4) % width) + i % 4],
    )
}

/// What a [`RawImage`] holds.
pub struct RawImageView {
    pub width: u32,
    pub height: u32,
    pub pixels: Seq<u8>,
}

impl RawImageView {
    /// Four bytes for every pixel.
    pub open spec fn valid(self) -> bool {
        self.pixels.len() == 4 * self.width * self.height
    }
}

/// A decoded image: its dimensions and its pixels, row by row, four bytes
/// (red, green, blue, alpha) for each.
#[derive(Debug)]
pub struct RawImage {
    width: u32,
    height: u32,
    pixels: Vec<u8>,
}

/// Four bytes for every pixel of an image are fewer than 2 to the power of 66.
pub proof fn lemma_area_fits(width: u32, height: u32)
    ensures
        0 <= 4 * width * height <= 0x3_ffff_fff8_0000_0004,
        4 * width * height == 4 * (width * height),
{
    assert(0 <= width * height <= 0xffff_fffe_0000_0001) by (nonlinear_arith)
        requires
            0 <= width <= 0xffff_ffff,
            0 <= height <= 0xffff_ffff,
    ;
    assert(4 * width * height == 4 * (width * height)) by (nonlinear_arith);
}

impl View for RawImage {
    type V = RawImageView;

    closed spec fn view(&self) -> RawImageView {
        RawImageView { width: self.width, height: self.height, pixels: self.pixels@ }
    }
}

impl Clone for RawImage {
    fn clone(&self) -> (copy: RawImage)
        ensures
            copy@ == self@,
    {
        proof {
            use_type_invariant(self);
        }
        let pixels: Vec<u8> = self.pixels.clone();
        assert(pixels@ =~= self.pixels@);
        RawImage { width: self.width, height: self.height, pixels }
    }
}

impl RawImage {
    #[verifier::type_invariant]
    spec fn well_formed(self) -> bool {
        self.pixels@.len() == 4 * self.width * self.height
    }

    /// The image of `width` by `height` pixels that `pixels` holds, or `None`
    /// where `pixels` is not four bytes for every pixel.
    pub fn new(width: u32, height: u32, pixels: Vec<u8>) -> (image: Option<RawImage>)
        ensures
            match image {
                Some(image) => {
                    &&& pixels@.len() == 4 * width * height
                    &&& image@ == (RawImageView { width, height, pixels: pixels@ })
                },
                None => pixels@.len() != 4 * width * height,
            },
    {
        proof {
            lemma_area_fits(width, height);
        }
        let area: u128 = width as u128 * height as u128;
        if pixels.len() as u128 == 4 * area {
            Some(RawImage { width, height, pixels })
        } else {
            None
        }
    }

    /// The width in pixels.
    pub fn width(&self) -> (width: u32)
        ensures
            width == self@.width,
    {
        self.width
    }

    /// The height in pixels.
    pub fn height(&self) -> (height: u32)
        ensures
            height == self@.height,
    {
        self.height
    }

    /// The pixels, row by row.
    pub fn pixels(&self) -> (pixels: &Vec<u8>)
        ensures
            pixels@ == self@.pixels,
            self@.valid(),
    {
        proof {
            use_type_invariant(self);
        }
        &self.pixels
    }

    /// The rectangle at (`x`, `y`) of `width` by `height` pixels, or `None`
    /// where the rectangle does not lie within the image.
    pub fn crop(&self, x: u32, y: u32, width: u32, height: u32) -> (cell: Option<RawImage>)
        ensures
            self@.valid(),
            match cell {
                Some(cell) => {
                    &&& x + width <= self@.width
                    &&& y + height <= self@.height
                    &&& cell@ == (RawImageView {
                        width,
                        height,
                        pixels: crop_pixels(
                            self@.pixels,
                            self@.width as int,
                            x as int,
                            y as int,
                            width as int,
                            height as int,
                        ),
                    })
                    &&& cell@.valid()
                },
                None => x + width > self@.width || y + height > self@.height,
            },
    {
        proof {
            use_type_invariant(self);
            lemma_area_fits(width, height);
        }
        if x as u64 + width as u64 > self.width as u64 || y as u64 + height as u64
            > self.height as u64 {
            return None;
        }
        let pixels: Vec<u8> = crop_rgba(&self.pixels, self.width, self.height, x, y, width, height);
        Some(RawImage { width, height, pixels })
    }
}

/// What compressing `pixels` gives: the compressed bytes, or the error of a
/// compressor that failed.
pub open spec fn compressed(pixels: Seq<u8>) -> Result<Seq<u8>, ErrorView> {
    match gzip(pixels, COMPRESSION_LEVEL) {
        Some(member) => Ok(member),
        None => Err(ErrorView::Io),
    }
}

/// Compresses the pixels of one sprite. What comes out decompresses to
/// `pixels` again.
pub fn compress_pixels(pixels: &[u8]) -> (outcome: Result<Vec<u8>, AppearanceError>)
    ensures
        match compressed(pixels@) {
            Ok(member) => outcome matches Ok(bytes) && bytes@ == member && gunzip(member) == Some(
                pixels@,
            ),
            Err(e) => outcome matches Err(error) && error@ == e,
        },
{
    match gzip_encode(pixels, COMPRESSION_LEVEL) {
        Ok(bytes) => Ok(bytes),
        Err(_) => Err(AppearanceError::Io),
    }
}

/// What decompressing the pixels of a sprite of `width` by `height` pixels
/// gives: the pixels, or `CorruptSprite` where the bytes do not decompress, or
/// not to four bytes for every pixel.
pub open spec fn decompressed(
    member: Seq<u8>,
    width: u32,
    height: u32,
) -> Result<Seq<u8>, ErrorView> {
    match gunzip(member) {
        Some(pixels) => if pixels.len() == 4 * width * height {
            Ok(pixels)
        } else {
            Err(ErrorView::CorruptSprite)
        },
        None => Err(ErrorView::CorruptSprite),
    }
}

/// Decompresses the pixels of a sprite of `width` by `height` pixels.
pub fn decompress_pixels(member: &[u8], width: u32, height: u32) -> (outcome: Result<
    Vec<u8>,
    AppearanceError,
>)
    ensures
        match decompressed(member@, width, height) {
            Ok(pixels) => outcome matches Ok(bytes) && bytes@ == pixels,
            Err(e) => outcome matches Err(error) && error@ == e,
        },
{
    proof {
        lemma_area_fits(width, height);
    }
    match gzip_decode(member) {
        Ok(pixels) => {
            let area: u128 = width as u128 * height as u128;
            if pixels.len() as u128 == 4 * area {
                Ok(pixels)
            } else {
                Err(AppearanceError::CorruptSprite)
            }
        },
        Err(_) => Err(AppearanceError::CorruptSprite),
    }
}

/// The sprite that an image is stored as.
pub open spec fn sprite_of_image(image: RawImageView) -> Result<SpriteDataView, ErrorView> {
    match compressed(image.pixels) {
        Ok(member) => Ok(
            SpriteDataView { width: image.width, height: image.height, compressed_pixels: member },
        ),
        Err(e) => Err(e),
    }
}

/// Turns an image into the sprite that it is stored as: its dimensions, and
/// its pixels compressed. The pixels of the sprite decompress to those of the
/// image.
pub fn image_to_sprite_data(image: &RawImage) -> (outcome: Result<SpriteData, AppearanceError>)
    ensures
        image@.valid(),
        match sprite_of_image(image@) {
            Ok(sprite) => {
                &&& outcome matches Ok(data)
                &&& data@ == sprite
                &&& decompressed(sprite.compressed_pixels, sprite.width, sprite.height) == Ok::<
                    Seq<u8>,
                    ErrorView,
                >(image@.pixels)
            },
            Err(e) => outcome matches Err(error) && error@ == e,
        },
{
    let pixels: &Vec<u8> = image.pixels();
    let compressed_pixels: Vec<u8> = match compress_pixels(pixels.as_slice()) {
        Ok(bytes) => bytes,
        Err(e) => {
            return Err(e);
        },
    };
    Ok(SpriteData { width: image.width(), height: image.height(), compressed_pixels })
}

/// What a list of sprites holds.
pub open spec fn sprite_views(sprites: Seq<SpriteData>) -> Seq<SpriteDataView> {
    sprites.map_values(|sprite: SpriteData| sprite@)
}

/// The pixels of the cell with the number `position` on a sheet whose rows
/// hold `columns` cells of `sprite_size` by `sprite_size` pixels, the cells
/// being counted row by row.
pub open spec fn cell_pixels(
    sheet: RawImageView,
    sprite_size: u32,
    columns: int,
    position: int,
) -> Seq<u8> {
    crop_pixels(
        sheet.pixels,
        sheet.width as int,
        (position % columns) * sprite_size,
        (position / columns) * sprite_size,
        sprite_size as int,
        sprite_size as int,
    )
}

/// Whether a sheet has the dimensions that its frames and directions ask for.
pub open spec fn sheet_fits(
    sheet: RawImageView,
    sprite_size: u32,
    frame_count: u32,
    direction_count: u32,
    orientation: Orientation,
) -> bool {
    &&& sheet.width == sheet_width(sprite_size, frame_count, direction_count, orientation)
    &&& sheet.height == sheet_height(sprite_size, frame_count, direction_count, orientation)
}

/// The error for a sheet that does not have the dimensions asked for: it
/// names the appearance and the frame group, and carries the dimensions that
/// were expected and those that the sheet has.
pub open spec fn dimension_mismatch(
    sheet: RawImageView,
    appearance: Seq<char>,
    frame_group: Seq<char>,
    sprite_size: u32,
    frame_count: u32,
    direction_count: u32,
    orientation: Orientation,
) -> ErrorView {
    ErrorView::DimensionMismatch {
        appearance,
        frame_group,
        expected_width: sheet_width(sprite_size, frame_count, direction_count, orientation) as u64,
        expected_height: sheet_height(
            sprite_size,
            frame_count,
            direction_count,
            orientation,
        ) as u64,
        actual_width: sheet.width,
        actual_height: sheet.height,
    }
}

/// The sprite that the cell with the number `position` is stored as, where
/// its pixels compress.
pub open spec fn cell_sprite(
    sheet: RawImageView,
    sprite_size: u32,
    columns: int,
    position: int,
) -> Result<
    SpriteDataView,
    ErrorView,
> {
    match compressed(cell_pixels(sheet, sprite_size, columns, position)) {
        Ok(member) => Ok(
            SpriteDataView { width: sprite_size, height: sprite_size, compressed_pixels: member },
        ),
        Err(e) => Err(e),
    }
}

/// What cutting a sheet into its cells gives: the sprite of every cell, row
/// by row; `DimensionMismatch` for a sheet that does not have the dimensions
/// asked for; the compressor's error where a cell does not compress.
pub open spec fn sliced(
    sheet: RawImageView,
    appearance: Seq<char>,
    frame_group: Seq<char>,
    sprite_size: u32,
    frame_count: u32,
    direction_count: u32,
    orientation: Orientation,
) -> Result<Seq<SpriteDataView>, ErrorView> {
    let columns = grid_columns(frame_count, direction_count, orientation);
    let rows = grid_rows(frame_count, direction_count, orientation);
    if !sheet_fits(sheet, sprite_size, frame_count, direction_count, orientation) {
        Err(
            dimension_mismatch(
                sheet,
                appearance,
                frame_group,
                sprite_size,
                frame_count,
                direction_count,
                orientation,
            ),
        )
    } else if forall|position: int|
        0 <= position < rows * columns ==> (#[trigger] cell_sprite(
            sheet,
            sprite_size,
            columns,
            position,
        )) is Ok {
        Ok(
            Seq::new(
                (rows * columns) as nat,
                |position: int| cell_sprite(sheet, sprite_size, columns, position)->Ok_0,
            ),
        )
    } else {
        Err(ErrorView::Io)
    }
}

/// Whether `sprite` is the sprite of the cell with the number `position`,
/// and decompresses to the pixels of that cell.
spec fn cell_is_cut(
    sprite: SpriteDataView,
    sheet: RawImageView,
    sprite_size: u32,
    columns: int,
    position: int,
) -> bool {
    &&& cell_sprite(sheet, sprite_size, columns, position) == Ok::<SpriteDataView, ErrorView>(
        sprite,
    )
    &&& decompressed(sprite.compressed_pixels, sprite_size, sprite_size) == Ok::<
        Seq<u8>,
        ErrorView,
    >(cell_pixels(sheet, sprite_size, columns, position))
}

proof fn lemma_cell_on_sheet(row: int, column: int, rows: int, columns: int, sprite_size: u32)
    requires
        0 <= row < rows,
        0 <= column < columns,
    ensures
        0 <= column * sprite_size,
        column * sprite_size + sprite_size <= sprite_size * columns,
        0 <= row * sprite_size,
        row * sprite_size + sprite_size <= sprite_size * rows,
        row * columns + column + 1 <= rows * columns,
        (row + 1) * columns == row * columns + columns,
{
    assert(0 <= column * sprite_size && column * sprite_size + sprite_size <= sprite_size * columns)
        by (nonlinear_arith)
        requires
            0 <= column < columns,
            0 <= sprite_size,
    ;
    assert(0 <= row * sprite_size && row * sprite_size + sprite_size <= sprite_size * rows)
        by (nonlinear_arith)
        requires
            0 <= row < rows,
            0 <= sprite_size,
    ;
    assert(row * columns + column + 1 <= rows * columns) by (nonlinear_arith)
        requires
            0 <= row < rows,
            0 <= column < columns,
    ;
    assert((row + 1) * columns == row * columns + columns) by (nonlinear_arith);
}

/// Cuts a spritesheet into its cells and compresses each: the sprites of the
/// sheet, row by row. `appearance` and `frame_group` name the sheet in the
/// error for one that does not have the dimensions that `sprite_size`,
/// `num_frames`, `num_directions` and `orientation` ask for. The pixels of
/// every sprite decompress to those of its cell.
pub fn slice_spritesheet(
    sheet: &RawImage,
    appearance: &str,
    frame_group: &str,
    sprite_size: u32,
    num_frames: u32,
    num_directions: u32,
    orientation: Orientation,
) -> (outcome: Result<Vec<SpriteData>, AppearanceError>)
    ensures
        sheet@.valid(),
        match sliced(
            sheet@,
            appearance@,
            frame_group@,
            sprite_size,
            num_frames,
            num_directions,
            orientation,
        ) {
            Ok(cells) => {
                &&& outcome matches Ok(sprites)
                &&& sprite_views(sprites@) == cells
                &&& forall|position: int|
                    0 <= position < cells.len() ==> decompressed(
                        (#[trigger] cells[position]).compressed_pixels,
                        sprite_size,
                        sprite_size,
                    ) == Ok::<Seq<u8>, ErrorView>(
                        cell_pixels(
                            sheet@,
                            sprite_size,
                            grid_columns(num_frames, num_directions, orientation),
                            position,
                        ),
                    )
            },
            Err(e) => outcome matches Err(error) && error@ == e,
        },
{
    let (expected_width, expected_height): (u64, u64) = expected_sheet_size(
        sprite_size,
        num_frames,
        num_directions,
        orientation,
    );
    let ghost view = sheet@;
    let sheet_pixels: &Vec<u8> = sheet.pixels();
    if sheet.width() as u64 != expected_width || sheet.height() as u64 != expected_height {
        return Err(
            AppearanceError::DimensionMismatch {
                appearance: String::from_str(appearance),
                frame_group: String::from_str(frame_group),
                expected_width,
                expected_height,
                actual_width: sheet.width(),
                actual_height: sheet.height(),
            },
        );
    }
    let lane_count: u32 = if num_directions > 0 {
        num_directions
    } else {
        1
    };
    let (rows, columns): (u32, u32) = match orientation {
        Orientation::Vertical => (lane_count, num_frames),
        Orientation::Horizontal => (num_frames, lane_count),
    };
    assert(rows == grid_rows(num_frames, num_directions, orientation));
    assert(columns == grid_columns(num_frames, num_directions, orientation));
    let mut sprites: Vec<SpriteData> = Vec::new();
    let mut row: u32 = 0;
    while row < rows
        invariant
            row <= rows,
            view == sheet@,
            view.valid(),
            view.width == sprite_size * columns,
            view.height == sprite_size * rows,
            rows == grid_rows(num_frames, num_directions, orientation),
            columns == grid_columns(num_frames, num_directions, orientation),
            sheet_fits(view, sprite_size, num_frames, num_directions, orientation),
            sprites@.len() == row * columns,
            forall|position: int|
                0 <= position < sprites@.len() ==> cell_is_cut(
                    (#[trigger] sprites@[position])@,
                    view,
                    sprite_size,
                    columns as int,
                    position,
                ),
        ensures
            row == rows,
        decreases rows - row,
    {
        let mut column: u32 = 0;
        while column < columns
            invariant
                row < rows,
                column <= columns,
                view == sheet@,
                view.valid(),
                view.width == sprite_size * columns,
                view.height == sprite_size * rows,
                rows == grid_rows(num_frames, num_directions, orientation),
                columns == grid_columns(num_frames, num_directions, orientation),
                sheet_fits(view, sprite_size, num_frames, num_directions, orientation),
                sprites@.len() == row * columns + column,
                forall|position: int|
                    0 <= position < sprites@.len() ==> cell_is_cut(
                        (#[trigger] sprites@[position])@,
                        view,
                        sprite_size,
                        columns as int,
                        position,
                    ),
            decreases columns - column,
        {
            let ghost position: int = row * columns + column;
            proof {
                lemma_cell_on_sheet(
                    row as int,
                    column as int,
                    rows as int,
                    columns as int,
                    sprite_size,
                );
                lemma_cell_of_position(row as int, column as int, rows as int, columns as int);
            }
            let x: u32 = column * sprite_size;
            let y: u32 = row * sprite_size;
            let cell: RawImage = match sheet.crop(x, y, sprite_size, sprite_size) {
                Some(cell) => cell,
                None => {
                    assert(false);
                    return Err(AppearanceError::CorruptSprite);
                },
            };
            assert(cell@.pixels == cell_pixels(view, sprite_size, columns as int, position));
            let data: SpriteData = match image_to_sprite_data(&cell) {
                Ok(data) => data,
                Err(e) => {
                    assert(cell_sprite(view, sprite_size, columns as int, position) is Err);
                    assert(0 <= position < rows * columns);
                    return Err(e);
                },
            };
            sprites.push(data);
            column += 1;
        }
        assert((row + 1) * columns == row * columns + columns) by (nonlinear_arith);
        row += 1;
    }
    proof {
        let cells = sprite_views(sprites@);
        assert forall|position: int| 0 <= position < rows * columns implies (#[trigger] cell_sprite(
            view,
            sprite_size,
            columns as int,
            position,
        )) == Ok::<SpriteDataView, ErrorView>(cells[position]) by {
            assert(cell_is_cut(sprites@[position]@, view, sprite_size, columns as int, position));
        }
        assert(cells =~= sliced(
            view,
            appearance@,
            frame_group@,
            sprite_size,
            num_frames,
            num_directions,
            orientation,
        )->Ok_0);
        assert forall|position: int| 0 <= position < cells.len() implies decompressed(
            (#[trigger] cells[position]).compressed_pixels,
            sprite_size,
            sprite_size,
        ) == Ok::<Seq<u8>, ErrorView>(cell_pixels(view, sprite_size, columns as int, position)) by {
            assert(cell_is_cut(sprites@[position]@, view, sprite_size, columns as int, position));
        }
    }
    Ok(sprites)
}

/// The bytes of a sprite file: width, height and the number of compressed
/// bytes, four bytes each, then the compressed bytes.
pub open spec fn sprite_file_bytes(sprite: SpriteDataView) -> Seq<u8> {
    u32_le_bytes(sprite.width) + u32_le_bytes(sprite.height) + u32_le_bytes(
        sprite.compressed_pixels.len() as u32,
    ) + sprite.compressed_pixels
}

/// The bytes of the file that a sprite is stored in. A sprite whose
/// compressed pixels are too many to be counted in four bytes is refused.
pub fn encode_sprite_file(sprite: &SpriteData) -> (outcome: Result<Vec<u8>, AppearanceError>)
    ensures
        match outcome {
            Ok(bytes) => {
                &&& sprite@.compressed_pixels.len() <= u32::MAX
                &&& bytes@ == sprite_file_bytes(sprite@)
            },
            Err(error) => {
                &&& sprite@.compressed_pixels.len() > u32::MAX
                &&& error@ == ErrorView::InvalidData(too_long())
            },
        },
{
    if sprite.compressed_pixels.len() > u32::MAX as usize {
        return Err(too_long_error());
    }
    let mut bytes: Vec<u8> = Vec::new();
    write_u32(&mut bytes, sprite.width);
    write_u32(&mut bytes, sprite.height);
    write_u32(&mut bytes, sprite.compressed_pixels.len() as u32);
    write_bytes(&mut bytes, sprite.compressed_pixels.as_slice());
    assert(bytes@ =~= sprite_file_bytes(sprite@));
    Ok(bytes)
}

/// The sprite that a sprite file holds, or `Truncated` where the file ends
/// before the sprite does. Bytes behind the sprite are not looked at.
pub open spec fn parse_sprite_file(data: Seq<u8>) -> Result<SpriteDataView, ErrorView> {
    match parse_u32(data, 0) {
        Err(e) => Err(e),
        Ok((width, after_width)) => match parse_u32(data, after_width) {
            Err(e) => Err(e),
            Ok((height, after_height)) => match parse_u32(data, after_height) {
                Err(e) => Err(e),
                Ok((length, start)) => match parse_bytes(data, start, length as int) {
                    Err(e) => Err(e),
                    Ok((member, _)) => Ok(
                        SpriteDataView { width, height, compressed_pixels: member },
                    ),
                },
            },
        },
    }
}

/// Reads the sprite that a sprite file holds.
pub fn read_sprite_file(data: &[u8]) -> (outcome: Result<SpriteData, AppearanceError>)
    ensures
        match parse_sprite_file(data@) {
            Ok(sprite) => outcome matches Ok(read) && read@ == sprite,
            Err(e) => outcome matches Err(error) && error@ == e,
        },
{
    let mut reader: ByteReader = ByteReader::new(data);
    let width: u32 = match reader.read_u32() {
        Ok(width) => width,
        Err(e) => {
            return Err(e);
        },
    };
    let height: u32 = match reader.read_u32() {
        Ok(height) => height,
        Err(e) => {
            return Err(e);
        },
    };
    let length: u32 = match reader.read_u32() {
        Ok(length) => length,
        Err(e) => {
            return Err(e);
        },
    };
    let compressed_pixels: Vec<u8> = match reader.read_bytes(length as usize) {
        Ok(bytes) => bytes,
        Err(e) => {
            return Err(e);
        },
    };
    Ok(SpriteData { width, height, compressed_pixels })
}

/// A sprite file is read back as the sprite that it was written for.
pub proof fn lemma_sprite_file_round_trip(sprite: SpriteDataView)
    requires
        sprite.compressed_pixels.len() <= u32::MAX,
    ensures
        parse_sprite_file(sprite_file_bytes(sprite)) == Ok::<SpriteDataView, ErrorView>(sprite),
{
    let data = sprite_file_bytes(sprite);
    let length = sprite.compressed_pixels.len() as u32;
    let head = u32_le_bytes(sprite.width) + u32_le_bytes(sprite.height) + u32_le_bytes(length);
    lemma_holds_at_start(data);
    lemma_holds_at_concat(data, 0, head, sprite.compressed_pixels);
    lemma_holds_at_concat(
        data,
        0,
        u32_le_bytes(sprite.width) + u32_le_bytes(sprite.height),
        u32_le_bytes(length),
    );
    lemma_holds_at_concat(data, 0, u32_le_bytes(sprite.width), u32_le_bytes(sprite.height));
    lemma_parse_written_u32(data, 0, sprite.width);
    lemma_parse_written_u32(data, 4, sprite.height);
    lemma_parse_written_u32(data, 8, length);
    reveal(holds_at);
}

} // verus!

//! Bitmaps, and the import of an authored animation file: the sprite sheet
//! that its frames are laid out on, and the animations that its tags name.
use vstd::prelude::*;
use vstd::arithmetic::div_mod::lemma_fundamental_div_mod_converse;
use crate::animations::{
    animation_views, animations_numbered_from, frame_views, frames_numbered_from, total_frames,
    AnimType, Animation, AnimationView, Frame, FrameView, PER_FRAME_DELAY,
};
use crate::hats_data::{path_view, IVec2};
use crate::ids::{id_after_many, lemma_id_after_many_add, IdSource};
use crate::path_utils::{extension_of, HatPath, PathView};
use crate::text::{lowercase_of, same_text, to_lowercase};

verus! {

/// How many bytes an image of the given size has, at four bytes a pixel.
pub open spec fn byte_count(width: int, height: int) -> int {
    4 * width * height
}

/// A decoded image: rows of pixels from the top, each pixel four bytes (red,
/// green, blue, alpha), and the file that it was read from, if any.
#[derive(Debug)]
pub struct Bitmap {
    width: i32,
    height: i32,
    pixels: Vec<u8>,
    path: Option<HatPath>,
}

impl Bitmap {
    #[verifier::type_invariant]
    spec fn well_formed(&self) -> bool {
        &&& 0 <= self.width
        &&& 0 <= self.height
        &&& self.pixels@.len() == byte_count(self.width as int, self.height as int)
    }

    pub closed spec fn view_width(&self) -> int {
        self.width as int
    }

    pub closed spec fn view_height(&self) -> int {
        self.height as int
    }

    /// The bytes of the pixels, row after row.
    pub closed spec fn view_bytes(&self) -> Seq<u8> {
        self.pixels@
    }

    pub closed spec fn view_path(&self) -> Option<PathView> {
        path_view(self.path)
    }

    /// An image of the given size over the given bytes, without a path.
    /// There is none if a side is negative or the bytes are not four for each
    /// pixel.
    pub fn from_bytes(width: i32, height: i32, bytes: Vec<u8>) -> (bitmap: Option<Bitmap>)
        ensures
            bitmap is Some <==> 0 <= width && 0 <= height && bytes@.len() == byte_count(
                width as int,
                height as int,
            ),
            bitmap matches Some(b) ==> b.view_width() == width && b.view_height() == height
                && b.view_bytes() == bytes@ && b.view_path() is None,
    {
        if width < 0 || height < 0 {
            return None;
        }
        assert(0 <= width * height <= 0x7fff_ffff * 0x7fff_ffff) by (nonlinear_arith)
            requires
                0 <= width <= 0x7fff_ffff,
                0 <= height <= 0x7fff_ffff,
        ;
        let wanted: u64 = 4 * (width as u64 * height as u64);
        assert(wanted == byte_count(width as int, height as int)) by (nonlinear_arith)
            requires
                wanted == 4 * (width * height),
        ;
        if bytes.len() as u64 != wanted {
            return None;
        }
        Some(Bitmap { width, height, pixels: bytes, path: None })
    }

    /// The same image, said to have been read from `path`.
    pub fn with_path(self, path: HatPath) -> (bitmap: Bitmap)
        ensures
            bitmap.view_width() == self.view_width(),
            bitmap.view_height() == self.view_height(),
            bitmap.view_bytes() == self.view_bytes(),
            bitmap.view_path() == Some(path@),
    {
        proof {
            use_type_invariant(&self);
        }
        Bitmap { width: self.width, height: self.height, pixels: self.pixels, path: Some(path) }
    }

    pub fn width(&self) -> (width: i32)
        ensures
            width == self.view_width(),
            0 <= width,
    {
        proof {
            use_type_invariant(self);
        }
        self.width
    }

    pub fn height(&self) -> (height: i32)
        ensures
            height == self.view_height(),
            0 <= height,
    {
        proof {
            use_type_invariant(self);
        }
        self.height
    }

    /// The bytes of the pixels, row after row: four for each pixel.
    pub fn bytes(&self) -> (bytes: &Vec<u8>)
        ensures
            bytes@ == self.view_bytes(),
            bytes@.len() == byte_count(self.view_width(), self.view_height()),
    {
        proof {
            use_type_invariant(self);
        }
        &self.pixels
    }

    /// The file that the image was read from, if it was read from one.
    pub fn path(&self) -> (path: Option<&HatPath>)
        ensures
            path is Some <==> self.view_path() is Some,
            path matches Some(p) ==> Some(p@) == self.view_path(),
    {
        match &self.path {
            Some(p) => Some(p),
            None => None,
        }
    }
}

/// The columns and rows of the grid on which the frames of an authored file
/// are laid out.
#[derive(Debug, Clone, Copy, PartialEq, Eq, Structural)]
pub struct SheetGrid {
    pub columns: i32,
    pub rows: i32,
}

/// Whether `root` is the square root of `n`, rounded up: the least number
/// whose square is not below `n`.
pub open spec fn is_ceil_sqrt(n: int, root: int) -> bool {
    &&& 0 <= root
    &&& n <= root * root
    &&& root > 0 ==> (root - 1) * (root - 1) < n
}

/// The grid for `frame_count` frames: as many columns as the square root of
/// the count, rounded up, and as many rows, less one where the last row would
/// stay empty.
pub open spec fn grid_of(frame_count: int, grid: SheetGrid) -> bool {
    &&& is_ceil_sqrt(frame_count, grid.columns as int)
    &&& grid.rows == if grid.columns * grid.columns - frame_count >= grid.columns {
        grid.columns - 1
    } else {
        grid.columns as int
    }
}

/// Only one number is the rounded-up square root of `n`.
pub proof fn lemma_ceil_sqrt_unique(n: int, a: int, b: int)
    requires
        is_ceil_sqrt(n, a),
        is_ceil_sqrt(n, b),
    ensures
        a == b,
{
    if a < b {
        assert(a * a <= (b - 1) * (b - 1)) by (nonlinear_arith)
            requires
                0 <= a <= b - 1,
        ;
    } else if b < a {
        assert(b * b <= (a - 1) * (a - 1)) by (nonlinear_arith)
            requires
                0 <= b <= a - 1,
        ;
    }
}

/// Every number has a rounded-up square root.
pub proof fn lemma_ceil_sqrt_exists(n: nat)
    ensures
        exists|root: int| is_ceil_sqrt(n as int, root),
    decreases n,
{
    if n == 0 {
        assert(is_ceil_sqrt(0, 0));
    } else {
        lemma_ceil_sqrt_exists((n - 1) as nat);
        let smaller = n - 1;
        let below = choose|root: int| is_ceil_sqrt(smaller, root);
        if below * below >= n {
            assert(is_ceil_sqrt(n as int, below));
        } else {
            assert((below + 1) * (below + 1) == below * below + 2 * below + 1)
                by (nonlinear_arith);
            assert(is_ceil_sqrt(n as int, below + 1));
        }
    }
}

/// The frames fit on the grid, and no row of it stays empty: the grid has at
/// least as many cells as there are frames and, where there is a frame at
/// all, fewer than one row of cells more.
pub proof fn lemma_grid_holds_frames(frame_count: int, grid: SheetGrid)
    requires
        0 <= frame_count,
        grid_of(frame_count, grid),
    ensures
        frame_count > 0 ==> 0 < grid.rows <= grid.columns,
        frame_count > 0 ==> frame_count <= grid.columns * grid.rows < frame_count + grid.columns,
        frame_count == 0 ==> grid.columns == 0 && grid.rows == -1,
{
    let c = grid.columns as int;
    if frame_count == 0 {
        if c > 0 {
            assert((c - 1) * (c - 1) >= 0) by (nonlinear_arith);
        }
    } else {
        assert(c != 0) by (nonlinear_arith)
            requires
                0 < frame_count <= c * c,
        ;
        assert(c * (c - 1) == c * c - c) by (nonlinear_arith);
        assert((c - 1) * (c - 1) == c * c - 2 * c + 1) by (nonlinear_arith);
        if c * c - frame_count >= c {
            assert(c > 1) by (nonlinear_arith)
                requires
                    c > 0,
                    c * c - frame_count >= c,
                    frame_count > 0,
            ;
        }
    }
}

/// The grid on which `frame_count` frames are laid out.
pub fn sheet_grid(frame_count: u32) -> (grid: SheetGrid)
    ensures
        grid_of(frame_count as int, grid),
{
    let n: u64 = frame_count as u64;
    let mut columns: u64 = 0;
    while columns * columns < n
        invariant
            n == frame_count,
            columns <= 0x1_0000,
            columns * columns <= 0x1_0000_0000,
            columns > 0 ==> (columns - 1) * (columns - 1) < n,
        decreases 0x1_0000 - columns,
    {
        assert(columns < 0x1_0000) by (nonlinear_arith)
            requires
                columns * columns < n,
                n <= 0xffff_ffff,
                columns <= 0x1_0000,
        ;
        columns = columns + 1;
        assert(columns * columns <= 0x1_0000 * 0x1_0000) by (nonlinear_arith)
            requires
                columns <= 0x1_0000,
        ;
    }
    let rows: i32 = if columns * columns - n >= columns {
        columns as i32 - 1
    } else {
        columns as i32
    };
    SheetGrid { columns: columns as i32, rows }
}

/// The number of columns of the grid for `frame_count` frames.
pub open spec fn columns_for(frame_count: int) -> int {
    choose|columns: int| is_ceil_sqrt(frame_count, columns)
}

/// The number of rows of the grid for `frame_count` frames.
pub open spec fn rows_for(frame_count: int) -> int {
    let columns = columns_for(frame_count);
    if columns * columns - frame_count >= columns {
        columns - 1
    } else {
        columns
    }
}

/// A grid for a number of frames has the columns and rows that the number
/// calls for.
pub proof fn lemma_grid_is(frame_count: int, grid: SheetGrid)
    requires
        grid_of(frame_count, grid),
    ensures
        grid.columns == columns_for(frame_count),
        grid.rows == rows_for(frame_count),
{
    lemma_ceil_sqrt_unique(frame_count, grid.columns as int, columns_for(frame_count));
}

/// One frame of an authored file: its pixels, four bytes each, and how long
/// it is shown, in milliseconds.
#[derive(Debug)]
pub struct AseFrame {
    pub pixels: Vec<u8>,
    pub duration: u32,
}

/// A tag of an authored file: a name for the frames from `from_frame` to
/// `to_frame`, both among them. A tag whose last frame comes before its
/// first names no frame.
#[derive(Debug)]
pub struct AseTag {
    pub name: String,
    pub from_frame: u32,
    pub to_frame: u32,
}

/// Why the parts of an authored file do not make a sheet.
#[derive(Debug, Clone, Copy, PartialEq, Eq, Structural)]
pub enum AseError {
    /// There is no frame.
    NoFrames,
    /// There are more frames than the file format can count.
    TooManyFrames,
    /// A frame does not have four bytes for each pixel.
    FrameSizeMismatch,
    /// A tag names a frame that is not there.
    TagOutOfRange,
    /// The sprite sheet would have more bytes than can be addressed.
    TooLarge,
}

/// The most frames that an authored file can have.
pub const MAX_ASE_FRAMES: usize = 0xffff;

/// Whether every frame has four bytes for each pixel of the given size.
pub open spec fn frames_sized(frames: Seq<AseFrame>, width: int, height: int) -> bool {
    forall|i: int|
        0 <= i < frames.len() ==> (#[trigger] frames[i]).pixels@.len() == byte_count(width, height)
}

/// Whether every frame that a tag names is among `frame_count` frames.
pub open spec fn tags_in_range(tags: Seq<AseTag>, frame_count: int) -> bool {
    forall|i: int|
        0 <= i < tags.len() ==> ((#[trigger] tags[i]).from_frame <= tags[i].to_frame
            ==> tags[i].to_frame < frame_count)
}

/// How many bytes the sprite sheet of `frame_count` frames of the given size
/// has.
pub open spec fn sheet_bytes(width: int, height: int, frame_count: int) -> int {
    byte_count(width * columns_for(frame_count), height * rows_for(frame_count))
}

/// What keeps the parts of an authored file from making a sheet, if anything
/// does.
pub open spec fn sheet_problem(
    width: u16,
    height: u16,
    frames: Seq<AseFrame>,
    tags: Seq<AseTag>,
) -> Option<AseError> {
    if frames.len() == 0 {
        Some(AseError::NoFrames)
    } else if frames.len() > MAX_ASE_FRAMES {
        Some(AseError::TooManyFrames)
    } else if !frames_sized(frames, width as int, height as int) {
        Some(AseError::FrameSizeMismatch)
    } else if !tags_in_range(tags, frames.len() as int) {
        Some(AseError::TagOutOfRange)
    } else if sheet_bytes(width as int, height as int, frames.len() as int) > usize::MAX {
        Some(AseError::TooLarge)
    } else {
        None
    }
}

/// The content of an authored animation file: frames of one size, and tags
/// that name runs of them. There is at least one frame, every frame has its
/// pixels, every tag names frames that are there, and the sprite sheet of
/// the frames can be held in memory.
#[derive(Debug)]
pub struct AseSheet {
    width: u16,
    height: u16,
    frames: Vec<AseFrame>,
    tags: Vec<AseTag>,
}

impl AseSheet {
    #[verifier::type_invariant]
    spec fn well_formed(&self) -> bool {
        sheet_problem(self.width, self.height, self.frames@, self.tags@) is None
    }

    pub closed spec fn view_width(&self) -> u16 {
        self.width
    }

    pub closed spec fn view_height(&self) -> u16 {
        self.height
    }

    pub closed spec fn view_frames(&self) -> Seq<AseFrame> {
        self.frames@
    }

    pub closed spec fn view_tags(&self) -> Seq<AseTag> {
        self.tags@
    }

    /// The sheet of the given frames and tags, or what keeps them from
    /// making one.
    pub fn new(width: u16, height: u16, frames: Vec<AseFrame>, tags: Vec<AseTag>) -> (sheet: Result<
        AseSheet,
        AseError,
    >)
        ensures
            sheet matches Ok(s) ==> sheet_problem(width, height, frames@, tags@) is None
                && s.view_width() == width && s.view_height() == height && s.view_frames()
                == frames@ && s.view_tags() == tags@,
            sheet matches Err(e) ==> sheet_problem(width, height, frames@, tags@) == Some(e),
    {
        if frames.len() == 0 {
            return Err(AseError::NoFrames);
        }
        if frames.len() > MAX_ASE_FRAMES {
            return Err(AseError::TooManyFrames);
        }
        assert(0 <= width * height <= 0xffff * 0xffff) by (nonlinear_arith)
            requires
                0 <= width <= 0xffff,
                0 <= height <= 0xffff,
        ;
        let frame_bytes: u64 = 4 * (width as u64 * height as u64);
        assert(frame_bytes == byte_count(width as int, height as int)) by (nonlinear_arith)
            requires
                frame_bytes == 4 * (width * height),
        ;
        let mut i: usize = 0;
        while i < frames.len()
            invariant
                i <= frames.len(),
                0 < frames@.len() <= MAX_ASE_FRAMES,
                frame_bytes == byte_count(width as int, height as int),
                forall|k: int|
                    0 <= k < i ==> (#[trigger] frames@[k]).pixels@.len() == byte_count(
                        width as int,
                        height as int,
                    ),
            decreases frames.len() - i,
        {
            if frames[i].pixels.len() as u64 != frame_bytes {
                return Err(AseError::FrameSizeMismatch);
            }
            i += 1;
        }
        let mut t: usize = 0;
        while t < tags.len()
            invariant
                t <= tags.len(),
                0 < frames@.len() <= MAX_ASE_FRAMES,
                frames_sized(frames@, width as int, height as int),
                forall|k: int|
                    0 <= k < t ==> ((#[trigger] tags@[k]).from_frame <= tags@[k].to_frame
                        ==> tags@[k].to_frame < frames@.len()),
            decreases tags.len() - t,
        {
            if tags[t].from_frame <= tags[t].to_frame && tags[t].to_frame as usize >= frames.len() {
                return Err(AseError::TagOutOfRange);
            }
            t += 1;
        }
        let grid = sheet_grid(frames.len() as u32);
        proof {
            lemma_grid_is(frames@.len() as int, grid);
            lemma_grid_holds_frames(frames@.len() as int, grid);
            lemma_grid_bounds(frames@.len() as int, grid);
        }
        assert(0 <= width * grid.columns <= 0xffff * 256 && 0 <= height * grid.rows <= 0xffff
            * 256) by (nonlinear_arith)
            requires
                0 <= width <= 0xffff,
                0 <= height <= 0xffff,
                0 < grid.rows <= grid.columns <= 256,
        ;
        let sheet_width: u64 = width as u64 * grid.columns as u64;
        let sheet_height: u64 = height as u64 * grid.rows as u64;
        assert(sheet_width * sheet_height <= 0x100_0000 * 0x100_0000) by (nonlinear_arith)
            requires
                sheet_width <= 0x100_0000,
                sheet_height <= 0x100_0000,
        ;
        let total: u64 = 4 * (sheet_width * sheet_height);
        assert(total == sheet_bytes(width as int, height as int, frames@.len() as int))
            by (nonlinear_arith)
            requires
                total == 4 * (sheet_width * sheet_height),
                sheet_width == width * columns_for(frames@.len() as int),
                sheet_height == height * rows_for(frames@.len() as int),
                sheet_bytes(width as int, height as int, frames@.len() as int) == 4 * (width
                    * columns_for(frames@.len() as int)) * (height * rows_for(
                    frames@.len() as int,
                )),
        ;
        if total > usize::MAX as u64 {
            return Err(AseError::TooLarge);
        }
        Ok(AseSheet { width, height, frames, tags })
    }

    pub fn width(&self) -> (width: u16)
        ensures
            width == self.view_width(),
    {
        self.width
    }

    pub fn height(&self) -> (height: u16)
        ensures
            height == self.view_height(),
    {
        self.height
    }

    /// The frames, of which there is at least one.
    pub fn frames(&self) -> (frames: &Vec<AseFrame>)
        ensures
            frames@ == self.view_frames(),
            0 < frames@.len() <= MAX_ASE_FRAMES,
            frames_sized(frames@, self.view_width() as int, self.view_height() as int),
    {
        proof {
            use_type_invariant(self);
        }
        &self.frames
    }

    /// The tags; each names frames that are there.
    pub fn tags(&self) -> (tags: &Vec<AseTag>)
        ensures
            tags@ == self.view_tags(),
            tags_in_range(tags@, self.view_frames().len() as int),
    {
        proof {
            use_type_invariant(self);
        }
        &self.tags
    }
}

/// One byte of the sprite sheet of the frames. The sheet is a grid of cells
/// as large as a frame, `columns` to a row; the cells hold the frames row
/// after row from the top, each row from the left, and a cell past the last
/// frame is transparent black. `at` counts the bytes of the sheet row after
/// row, four to a pixel.
pub open spec fn sheet_byte(
    frames: Seq<AseFrame>,
    width: int,
    height: int,
    columns: int,
    at: int,
) -> u8 {
    let pixel = at / 4;
    let channel = at % 4;
    let x = pixel % (width * columns);
    let y = pixel / (width * columns);
    let frame = (y / height) * columns + x / width;
    if frame < frames.len() {
        frames[frame].pixels@[4 * ((y % height) * width + x % width) + channel]
    } else {
        0u8
    }
}

/// The bytes of the sprite sheet of the frames.
pub open spec fn sheet_pixels(frames: Seq<AseFrame>, width: int, height: int) -> Seq<u8> {
    Seq::new(
        sheet_bytes(width, height, frames.len() as int) as nat,
        |at: int| sheet_byte(frames, width, height, columns_for(frames.len() as int), at),
    )
}

/// The sprite sheet of an authored file: every frame on one image, laid out
/// on the grid for their number. The image has no path.
pub fn bitmap_from_ase(sheet: &AseSheet) -> (bitmap: Bitmap)
    ensures
        bitmap.view_width() == sheet.view_width() * columns_for(sheet.view_frames().len() as int),
        bitmap.view_height() == sheet.view_height() * rows_for(sheet.view_frames().len() as int),
        bitmap.view_bytes() == sheet_pixels(
            sheet.view_frames(),
            sheet.view_width() as int,
            sheet.view_height() as int,
        ),
        bitmap.view_path() is None,
{
    proof {
        use_type_invariant(sheet);
    }
    let frames = &sheet.frames;
    let count: usize = frames.len();
    let grid = sheet_grid(count as u32);
    proof {
        lemma_grid_is(count as int, grid);
        lemma_grid_holds_frames(count as int, grid);
        lemma_grid_bounds(count as int, grid);
    }
    let w: usize = sheet.width as usize;
    let h: usize = sheet.height as usize;
    let columns: usize = grid.columns as usize;
    let rows: usize = grid.rows as usize;
    assert(0 <= w * columns <= 0xffff * 256 && 0 <= h * rows <= 0xffff * 256) by (nonlinear_arith)
        requires
            0 <= w <= 0xffff,
            0 <= h <= 0xffff,
            0 < rows <= columns <= 256,
    ;
    let sheet_width: usize = w * columns;
    let sheet_height: usize = h * rows;
    let ghost total: int = sheet_bytes(w as int, h as int, count as int);
    assert(total == 4 * (sheet_width * sheet_height)) by (nonlinear_arith)
        requires
            total == 4 * (w * columns) * (h * rows),
            sheet_width == w * columns,
            sheet_height == h * rows,
    ;
    let mut pixels: Vec<u8> = Vec::new();
    let mut y: usize = 0;
    while y < sheet_height
        invariant
            y <= sheet_height,
            sheet_width == w * columns,
            sheet_height == h * rows,
            0 < rows <= columns <= 256,
            w <= 0xffff,
            h <= 0xffff,
            count == frames@.len(),
            frames_sized(frames@, w as int, h as int),
            total == 4 * (sheet_width * sheet_height),
            total <= usize::MAX,
            pixels@.len() == 4 * (y * sheet_width),
            forall|at: int|
                0 <= at < pixels@.len() ==> pixels@[at] == sheet_byte(
                    frames@,
                    w as int,
                    h as int,
                    columns as int,
                    at,
                ),
        decreases sheet_height - y,
    {
        let mut x: usize = 0;
        while x < sheet_width
            invariant
                x <= sheet_width,
                y < sheet_height,
                sheet_width == w * columns,
                sheet_height == h * rows,
                0 < rows <= columns <= 256,
                w <= 0xffff,
                h <= 0xffff,
                count == frames@.len(),
                frames_sized(frames@, w as int, h as int),
                total == 4 * (sheet_width * sheet_height),
                total <= usize::MAX,
                pixels@.len() == 4 * (y * sheet_width + x),
                forall|at: int|
                    0 <= at < pixels@.len() ==> pixels@[at] == sheet_byte(
                        frames@,
                        w as int,
                        h as int,
                        columns as int,
                        at,
                    ),
            decreases sheet_width - x,
        {
            proof {
                lemma_cell(
                    x as int,
                    y as int,
                    w as int,
                    h as int,
                    columns as int,
                    rows as int,
                );
                assert(4 * (y * sheet_width + x) + 4 <= total) by (nonlinear_arith)
                    requires
                        x < sheet_width,
                        y < sheet_height,
                        total == 4 * (sheet_width * sheet_height),
                ;
                assert(0 <= (y / h) * columns <= 256 * 256) by (nonlinear_arith)
                    requires
                        0 <= (y / h) < rows,
                        0 < rows <= columns <= 256,
                ;
            }
            let cell: usize = (y / h) * columns + x / w;
            let ghost start = pixels@.len() as int;
            let ghost before = pixels@;
            if cell < count {
                let source = &frames[cell].pixels;
                assert(byte_count(w as int, h as int) == source.len()) by {
                    assert(frames@[cell as int].pixels@.len() == byte_count(w as int, h as int));
                }
                let from: usize = 4 * ((y % h) * w + x % w);
                pixels.push(source[from]);
                pixels.push(source[from + 1]);
                pixels.push(source[from + 2]);
                pixels.push(source[from + 3]);
            } else {
                pixels.push(0);
                pixels.push(0);
                pixels.push(0);
                pixels.push(0);
            }
            proof {
                let pixel = y * sheet_width + x;
                assert forall|at: int| 0 <= at < pixels@.len() implies pixels@[at] == sheet_byte(
                    frames@,
                    w as int,
                    h as int,
                    columns as int,
                    at,
                ) by {
                    if at < start {
                        assert(pixels@[at] == before[at]);
                    } else {
                        let channel = at - start;
                        lemma_fundamental_div_mod_converse(at, 4, pixel as int, channel);
                        lemma_fundamental_div_mod_converse(
                            pixel as int,
                            sheet_width as int,
                            y as int,
                            x as int,
                        );
                    }
                }
            }
            x += 1;
        }
        assert(4 * (y * sheet_width + sheet_width) == 4 * ((y + 1) * sheet_width))
            by (nonlinear_arith);
        y += 1;
    }
    assert(pixels@.len() == total) by (nonlinear_arith)
        requires
            pixels@.len() == 4 * (y * sheet_width),
            y == sheet_height,
            total == 4 * (sheet_width * sheet_height),
    ;
    assert(pixels@ =~= sheet_pixels(frames@, w as int, h as int));
    Bitmap { width: sheet_width as i32, height: sheet_height as i32, pixels, path: None }
}

/// Where the pixel (`x`, `y`) of a sprite sheet comes from: the cell that it
/// lies in is one of the grid, and its place within the cell is one of a
/// frame.
proof fn lemma_cell(x: int, y: int, w: int, h: int, columns: int, rows: int)
    requires
        0 <= x < w * columns,
        0 <= y < h * rows,
        0 <= w,
        0 <= h,
        0 < columns,
        0 < rows,
    ensures
        w > 0,
        h > 0,
        0 <= x / w < columns,
        0 <= y / h < rows,
        0 <= (y / h) * columns + x / w < rows * columns,
        0 <= x % w < w,
        0 <= y % h < h,
        0 <= (y % h) * w <= (y % h) * w + x % w,
        0 <= 4 * ((y % h) * w + x % w),
        4 * ((y % h) * w + x % w) + 4 <= byte_count(w, h),
{
    assert(w > 0) by (nonlinear_arith)
        requires
            0 <= x < w * columns,
            0 <= w,
    ;
    assert(h > 0) by (nonlinear_arith)
        requires
            0 <= y < h * rows,
            0 <= h,
    ;
    vstd::arithmetic::div_mod::lemma_fundamental_div_mod(x, w);
    vstd::arithmetic::div_mod::lemma_fundamental_div_mod(y, h);
    vstd::arithmetic::div_mod::lemma_mod_bound(x, w);
    vstd::arithmetic::div_mod::lemma_mod_bound(y, h);
    let cx = x / w;
    let cy = y / h;
    let rx = x % w;
    let ry = y % h;
    assert(0 <= cx < columns) by (nonlinear_arith)
        requires
            x == w * cx + rx,
            0 <= rx < w,
            0 <= x < w * columns,
            w > 0,
    ;
    assert(0 <= cy < rows) by (nonlinear_arith)
        requires
            y == h * cy + ry,
            0 <= ry < h,
            0 <= y < h * rows,
            h > 0,
    ;
    assert(0 <= cy * columns + cx < rows * columns) by (nonlinear_arith)
        requires
            0 <= cx < columns,
            0 <= cy < rows,
    ;
    assert(0 <= ry * w && 0 <= ry * w + rx && ry * w + rx + 1 <= w * h) by (nonlinear_arith)
        requires
            0 <= rx < w,
            0 <= ry < h,
    ;
    assert(byte_count(w, h) == 4 * (w * h)) by (nonlinear_arith);
}

/// The kind of animation that a tag name stands for, once the name is in
/// lower case. A name that stands for none has no kind.
pub open spec fn anim_type_named(lower: Seq<char>) -> Option<AnimType> {
    if lower == "ondefault"@ {
        Some(AnimType::OnDefault)
    } else if lower == "onpressquack"@ {
        Some(AnimType::OnPressQuack)
    } else if lower == "onreleasequack"@ {
        Some(AnimType::OnReleaseQuack)
    } else if lower == "onpetstop"@ {
        Some(AnimType::OnPetStop)
    } else if lower == "onpetapproach"@ {
        Some(AnimType::OnPetApproach)
    } else if lower == "onduckdeath"@ {
        Some(AnimType::OnDuckDeath)
    } else if lower == "onduckjump"@ {
        Some(AnimType::OnDuckJump)
    } else if lower == "onduckland"@ {
        Some(AnimType::OnDuckLand)
    } else if lower == "onduckglide"@ {
        Some(AnimType::OnDuckGlide)
    } else if lower == "onduckwalk"@ {
        Some(AnimType::OnDuckWalk)
    } else if lower == "onducksneak"@ {
        Some(AnimType::OnDuckSneak)
    } else if lower == "onducknetted"@ {
        Some(AnimType::OnDuckNetted)
    } else if lower == "onduckspawned"@ {
        Some(AnimType::OnDuckSpawned)
    } else if lower == "onhatpickedup"@ {
        Some(AnimType::OnHatPickedUp)
    } else {
        None
    }
}

/// The kind of animation that a tag name in lower case stands for.
pub fn anim_type_of_name(lower: &str) -> (kind: Option<AnimType>)
    ensures
        kind == anim_type_named(lower@),
{
    if same_text(lower, "ondefault") {
        Some(AnimType::OnDefault)
    } else if same_text(lower, "onpressquack") {
        Some(AnimType::OnPressQuack)
    } else if same_text(lower, "onreleasequack") {
        Some(AnimType::OnReleaseQuack)
    } else if same_text(lower, "onpetstop") {
        Some(AnimType::OnPetStop)
    } else if same_text(lower, "onpetapproach") {
        Some(AnimType::OnPetApproach)
    } else if same_text(lower, "onduckdeath") {
        Some(AnimType::OnDuckDeath)
    } else if same_text(lower, "onduckjump") {
        Some(AnimType::OnDuckJump)
    } else if same_text(lower, "onduckland") {
        Some(AnimType::OnDuckLand)
    } else if same_text(lower, "onduckglide") {
        Some(AnimType::OnDuckGlide)
    } else if same_text(lower, "onduckwalk") {
        Some(AnimType::OnDuckWalk)
    } else if same_text(lower, "onducksneak") {
        Some(AnimType::OnDuckSneak)
    } else if same_text(lower, "onducknetted") {
        Some(AnimType::OnDuckNetted)
    } else if same_text(lower, "onduckspawned") {
        Some(AnimType::OnDuckSpawned)
    } else if same_text(lower, "onhatpickedup") {
        Some(AnimType::OnHatPickedUp)
    } else {
        None
    }
}

/// The kind of animation that a tag name stands for, whatever its case.
pub open spec fn anim_type_of_tag(name: Seq<char>) -> Option<AnimType> {
    anim_type_named(lowercase_of(name))
}

/// The kind of animation that a tag name stands for, whatever its case.
pub fn tag_anim_type(name: &str) -> (kind: Option<AnimType>)
    ensures
        kind == anim_type_of_tag(name@),
{
    let lower = to_lowercase(name);
    anim_type_of_name(lower.as_str())
}

/// The frames that a tag names: one for each index from `from_frame` to
/// `to_frame`, both among them; each is shown as long as the file says.
pub open spec fn tag_frames(frames: Seq<AseFrame>, tag: AseTag) -> Seq<FrameView> {
    if tag.from_frame <= tag.to_frame {
        Seq::new(
            (tag.to_frame - tag.from_frame + 1) as nat,
            |i: int|
                FrameView {
                    value: (tag.from_frame + i) as u32,
                    delay: Some(frames[tag.from_frame + i].duration),
                },
        )
    } else {
        Seq::empty()
    }
}

/// The animation that a tag stands for, if its name stands for a kind: its
/// frames bring their own delays, and it does not loop.
pub open spec fn tag_animation(frames: Seq<AseFrame>, tag: AseTag) -> Option<AnimationView> {
    match anim_type_of_tag(tag.name@) {
        Some(kind) => Some(
            AnimationView {
                anim_type: kind,
                delay: PER_FRAME_DELAY,
                looping: false,
                frames: tag_frames(frames, tag),
            },
        ),
        None => None,
    }
}

/// The animations that the tags stand for, in the order of the tags; a tag
/// whose name stands for no kind is left out.
pub open spec fn extracted_animations(frames: Seq<AseFrame>, tags: Seq<AseTag>) -> Seq<
    AnimationView,
>
    decreases tags.len(),
{
    if tags.len() == 0 {
        Seq::empty()
    } else {
        let rest = extracted_animations(frames, tags.drop_last());
        match tag_animation(frames, tags.last()) {
            Some(animation) => rest.push(animation),
            None => rest,
        }
    }
}

/// Whether every frame of the animations shows one of `frame_count` cells,
/// told from their views.
pub open spec fn views_within(animations: Seq<AnimationView>, frame_count: int) -> bool {
    forall|i: int, k: int|
        0 <= i < animations.len() && 0 <= k < animations[i].frames.len() ==> (
        #[trigger] animations[i].frames[k]).value < frame_count
}

/// Every frame of an animation that was read from an authored file shows a
/// frame of the file.
pub proof fn lemma_extracted_within(frames: Seq<AseFrame>, tags: Seq<AseTag>)
    requires
        tags_in_range(tags, frames.len() as int),
        frames.len() <= u32::MAX,
    ensures
        views_within(extracted_animations(frames, tags), frames.len() as int),
    decreases tags.len(),
{
    if tags.len() > 0 {
        let before = tags.drop_last();
        assert(tags_in_range(before, frames.len() as int)) by {
            assert forall|i: int|
                0 <= i < before.len() && (#[trigger] before[i]).from_frame
                    <= before[i].to_frame implies before[i].to_frame < frames.len() by {
                assert(before[i] == tags[i]);
            }
        }
        lemma_extracted_within(frames, before);
        let tag = tags.last();
        assert(tag == tags[tags.len() - 1]);
        let all = extracted_animations(frames, tags);
        let rest = extracted_animations(frames, before);
        assert forall|i: int, k: int|
            0 <= i < all.len() && 0 <= k < all[i].frames.len() implies (
        #[trigger] all[i].frames[k]).value < frames.len() by {
            if i < rest.len() {
                assert(all[i] == rest[i]);
            } else {
                assert(all[i].frames == tag_frames(frames, tag));
            }
        }
    }
}

/// The sprite sheet of an authored file has a cell for every frame: where a
/// frame has a width and a height, as many frames of that size go into the
/// sheet as the grid has cells, and these are no fewer than the frames.
pub proof fn lemma_sheet_holds_frames(width: int, height: int, frame_count: int)
    requires
        0 < width,
        0 < height,
        0 < frame_count,
    ensures
        ((width * columns_for(frame_count)) / width) * ((height * rows_for(frame_count)) / height)
            == columns_for(frame_count) * rows_for(frame_count),
        frame_count <= columns_for(frame_count) * rows_for(frame_count),
{
    lemma_ceil_sqrt_exists(frame_count as nat);
    let columns = columns_for(frame_count);
    let rows = rows_for(frame_count);
    vstd::arithmetic::div_mod::lemma_div_multiples_vanish(columns, width);
    vstd::arithmetic::div_mod::lemma_div_multiples_vanish(rows, height);
    assert(0 < columns) by (nonlinear_arith)
        requires
            0 <= columns,
            0 < frame_count <= columns * columns,
    ;
    assert(columns * (columns - 1) == columns * columns - columns) by (nonlinear_arith);
}

/// The frames that a tag names, with fresh identities.
fn frames_of_tag(frames: &Vec<AseFrame>, tag: &AseTag, ids: &mut IdSource) -> (list: Vec<Frame>)
    requires
        tag.from_frame <= tag.to_frame ==> tag.to_frame < frames@.len(),
    ensures
        frame_views(list@) == tag_frames(frames@, *tag),
        frames_numbered_from(list@, old(ids).next_frame()),
        final(ids).next_frame() == id_after_many(old(ids).next_frame(), list@.len()),
        final(ids).next_element() == old(ids).next_element(),
        final(ids).next_hat() == old(ids).next_hat(),
{
    let ghost start = ids.next_frame();
    let mut list: Vec<Frame> = Vec::new();
    let first: u64 = tag.from_frame as u64;
    let last: u64 = tag.to_frame as u64;
    let mut f: u64 = first;
    while f <= last
        invariant
            first == tag.from_frame,
            last == tag.to_frame,
            first <= last ==> last < frames@.len(),
            first <= f,
            first <= last ==> f <= last + 1,
            first > last ==> f == first,
            list@.len() == f - first,
            forall|k: int|
                0 <= k < list@.len() ==> (#[trigger] list@[k])@ == (FrameView {
                    value: (tag.from_frame + k) as u32,
                    delay: Some(frames@[tag.from_frame + k].duration),
                }),
            frames_numbered_from(list@, start),
            ids.next_frame() == id_after_many(start, list@.len()),
            ids.next_element() == old(ids).next_element(),
            ids.next_hat() == old(ids).next_hat(),
        decreases last + 1 - f,
    {
        let frame = Frame::with_delay(f as u32, frames[f as usize].duration, ids);
        list.push(frame);
        f += 1;
    }
    assert(frame_views(list@) =~= tag_frames(frames@, *tag));
    list
}

/// What an authored file says of an element: the size of a frame, and the
/// animations that its tags stand for.
#[derive(Debug)]
pub struct AsepriteData {
    pub frame_size: IVec2,
    pub animations: Vec<Animation>,
}

impl AseSheet {
    /// The size of a frame, and the animations that the tags stand for. The
    /// frames of the animations get fresh identities.
    pub fn aseprite_data(&self, ids: &mut IdSource) -> (data: AsepriteData)
        ensures
            imported_from(data, *self, *old(ids), *final(ids)),
    {
        proof {
            use_type_invariant(self);
        }
        let ghost start = ids.next_frame();
        let frames = &self.frames;
        let tags = &self.tags;
        let mut animations: Vec<Animation> = Vec::new();
        let mut t: usize = 0;
        assert(extracted_animations(frames@, tags@.take(0)) =~= Seq::empty());
        while t < tags.len()
            invariant
                t <= tags.len(),
                tags_in_range(tags@, frames@.len() as int),
                animation_views(animations@) == extracted_animations(frames@, tags@.take(t as int)),
                forall|i: int|
                    0 <= i < animations@.len() ==> (#[trigger] animations@[i]).new_frame == 1
                        && animations@[i].new_range_start == 1 && animations@[i].new_range_end == 1,
                animations_numbered_from(animations@, start),
                ids.next_frame() == id_after_many(start, total_frames(animations@)),
                ids.next_element() == old(ids).next_element(),
                ids.next_hat() == old(ids).next_hat(),
            decreases tags.len() - t,
        {
            let tag = &tags[t];
            let ghost before = animations@;
            proof {
                assert(tags@.take(t + 1).drop_last() =~= tags@.take(t as int));
                assert(tags@.take(t + 1).last() == tags@[t as int]);
            }
            match tag_anim_type(tag.name.as_str()) {
                Some(kind) => {
                    let list = frames_of_tag(frames, tag, ids);
                    let animation = Animation::new(kind, PER_FRAME_DELAY, false, list);
                    animations.push(animation);
                    proof {
                        let grown = animations@;
                        assert(grown.drop_last() =~= before);
                        assert(animation_views(grown) =~= animation_views(before).push(
                            animation@,
                        ));
                        lemma_id_after_many_add(
                            start,
                            total_frames(before),
                            animation.frames@.len(),
                        );
                        assert forall|a: int| 0 <= a < grown.len() implies frames_numbered_from(
                            (#[trigger] grown[a]).frames@,
                            id_after_many(start, total_frames(grown.take(a))),
                        ) by {
                            if a < before.len() {
                                assert(grown.take(a) =~= before.take(a));
                                assert(grown[a] == before[a]);
                            } else {
                                assert(grown.take(a) =~= before);
                            }
                        }
                    }
                },
                None => {},
            }
            t += 1;
        }
        assert(tags@.take(t as int) =~= tags@);
        AsepriteData {
            frame_size: IVec2::new(self.width as i32, self.height as i32),
            animations,
        }
    }
}

/// An image as it was read: a plain bitmap, or an authored animation file
/// and the path that it was read from.
#[derive(Debug)]
pub enum Image {
    Bitmap(Bitmap),
    Aseprite(AseSheet, HatPath),
}

/// The formats of image that can be read.
#[derive(Debug, Clone, Copy, PartialEq, Eq, Structural)]
pub enum ImageFormat {
    Png,
    Aseprite,
}

/// Why a path does not name an image that can be read.
#[derive(Debug, Clone, Copy, PartialEq, Eq, Structural)]
pub enum ImageError {
    /// The path has no extension.
    NoExtension,
    /// The extension is neither `png` nor `aseprite`.
    UnsupportedExtension,
    /// The content of the file could not be decoded.
    Unreadable,
    /// The authored file was decoded, but its parts do not make a sheet.
    Malformed(AseError),
}

impl ImageError {
    /// The message that describes the error.
    pub open spec fn message_text(self) -> Seq<char> {
        match self {
            ImageError::NoExtension => "could not get file extension"@,
            ImageError::UnsupportedExtension => "expected png or aseprite extension"@,
            ImageError::Unreadable => "could not decode the image"@,
            ImageError::Malformed(AseError::NoFrames) => "the animation file has no frame"@,
            ImageError::Malformed(AseError::TooManyFrames) => {
                "the animation file has too many frames"@
            },
            ImageError::Malformed(AseError::FrameSizeMismatch) => {
                "a frame of the animation file has the wrong size"@
            },
            ImageError::Malformed(AseError::TagOutOfRange) => {
                "a tag of the animation file names a frame that is not there"@
            },
            ImageError::Malformed(AseError::TooLarge) => "the sprite sheet would be too large"@,
        }
    }

    /// The message that describes the error.
    pub fn message(&self) -> (text: &'static str)
        ensures
            text@ == self.message_text(),
    {
        match self {
            ImageError::NoExtension => "could not get file extension",
            ImageError::UnsupportedExtension => "expected png or aseprite extension",
            ImageError::Unreadable => "could not decode the image",
            ImageError::Malformed(AseError::NoFrames) => "the animation file has no frame",
            ImageError::Malformed(AseError::TooManyFrames) => "the animation file has too many frames",
            ImageError::Malformed(AseError::FrameSizeMismatch) => {
                "a frame of the animation file has the wrong size"
            },
            ImageError::Malformed(AseError::TagOutOfRange) => {
                "a tag of the animation file names a frame that is not there"
            },
            ImageError::Malformed(AseError::TooLarge) => "the sprite sheet would be too large",
        }
    }
}

/// The format that the extension of a path stands for.
pub open spec fn format_of(path: PathView) -> Result<ImageFormat, ImageError> {
    match extension_of(path) {
        None => Err(ImageError::NoExtension),
        Some(extension) => if extension == "png"@ {
            Ok(ImageFormat::Png)
        } else if extension == "aseprite"@ {
            Ok(ImageFormat::Aseprite)
        } else {
            Err(ImageError::UnsupportedExtension)
        },
    }
}

/// The format of the image at `path`, told by the extension.
pub fn image_format(path: &HatPath) -> (format: Result<ImageFormat, ImageError>)
    ensures
        format == format_of(path@),
{
    match path.extension() {
        None => Err(ImageError::NoExtension),
        Some(extension) => {
            if same_text(extension.as_str(), "png") {
                Ok(ImageFormat::Png)
            } else if same_text(extension.as_str(), "aseprite") {
                Ok(ImageFormat::Aseprite)
            } else {
                Err(ImageError::UnsupportedExtension)
            }
        },
    }
}

impl Image {
    /// The width of one frame of the image, in pixels: of a bitmap, the width
    /// of all of it.
    pub open spec fn view_width(&self) -> int {
        match self {
            Image::Bitmap(bitmap) => bitmap.view_width(),
            Image::Aseprite(sheet, _) => sheet.view_width() as int,
        }
    }

    /// The height of one frame of the image, in pixels.
    pub open spec fn view_height(&self) -> int {
        match self {
            Image::Bitmap(bitmap) => bitmap.view_height(),
            Image::Aseprite(sheet, _) => sheet.view_height() as int,
        }
    }

    pub open spec fn view_path(&self) -> Option<PathView> {
        match self {
            Image::Bitmap(bitmap) => bitmap.view_path(),
            Image::Aseprite(_, path) => Some(path@),
        }
    }

    pub fn width(&self) -> (width: i32)
        ensures
            width == self.view_width(),
    {
        match self {
            Image::Bitmap(bitmap) => bitmap.width(),
            Image::Aseprite(sheet, _) => sheet.width() as i32,
        }
    }

    pub fn height(&self) -> (height: i32)
        ensures
            height == self.view_height(),
    {
        match self {
            Image::Bitmap(bitmap) => bitmap.height(),
            Image::Aseprite(sheet, _) => sheet.height() as i32,
        }
    }

    pub fn path(&self) -> (path: Option<&HatPath>)
        ensures
            path is Some <==> self.view_path() is Some,
            path matches Some(p) ==> Some(p@) == self.view_path(),
    {
        match self {
            Image::Bitmap(bitmap) => bitmap.path(),
            Image::Aseprite(_, path) => Some(path),
        }
    }

    /// What an authored file says of an element; a plain bitmap says
    /// nothing.
    pub fn aseprite_data(&self, ids: &mut IdSource) -> (data: Option<AsepriteData>)
        ensures
            data is Some <==> self is Aseprite,
            self matches Image::Bitmap(_) ==> *final(ids) == *old(ids),
            self matches Image::Aseprite(sheet, _) ==> data matches Some(d) && imported_from(
                d,
                *sheet,
                *old(ids),
                *final(ids),
            ),
    {
        match self {
            Image::Bitmap(_) => None,
            Image::Aseprite(sheet, _) => Some(sheet.aseprite_data(ids)),
        }
    }

    /// The image as one bitmap, and what an authored file says of an
    /// element. A plain bitmap comes back as it is; an authored file gives
    /// the sprite sheet of its frames.
    pub fn to_bitmap_with_data(self, ids: &mut IdSource) -> (pair: (Bitmap, Option<AsepriteData>))
        ensures
            pair.1 is Some <==> self is Aseprite,
            self matches Image::Bitmap(bitmap) ==> pair.0 == bitmap && *final(ids) == *old(ids),
            self matches Image::Aseprite(sheet, _) ==> is_sheet_of(pair.0, sheet) && (
            pair.1 matches Some(d) && imported_from(d, sheet, *old(ids), *final(ids))),
    {
        match self {
            Image::Bitmap(bitmap) => (bitmap, None),
            Image::Aseprite(sheet, _) => {
                let data = sheet.aseprite_data(ids);
                (bitmap_from_ase(&sheet), Some(data))
            },
        }
    }
}

/// Whether `image` is what is made of the parts of an authored file at
/// `path`: the image of the sheet that they make, or that they are
/// malformed, with what keeps them from making a sheet.
pub open spec fn is_image_of_parts(
    image: Result<Image, ImageError>,
    path: PathView,
    width: u16,
    height: u16,
    frames: Seq<AseFrame>,
    tags: Seq<AseTag>,
) -> bool {
    match image {
        Ok(Image::Aseprite(sheet, from)) => {
            &&& sheet_problem(width, height, frames, tags) is None
            &&& from@ == path
            &&& sheet.view_width() == width
            &&& sheet.view_height() == height
            &&& sheet.view_frames() == frames
            &&& sheet.view_tags() == tags
        },
        Ok(Image::Bitmap(_)) => false,
        Err(e) => sheet_problem(width, height, frames, tags) is Some && e == ImageError::Malformed(
            sheet_problem(width, height, frames, tags)->0,
        ),
    }
}

impl Image {
    /// The image of an authored file at `path`, made of what was read from
    /// it: the size of its frames, its frames and its tags. The file is
    /// malformed where these do not make a sheet.
    pub fn from_aseprite(
        path: &HatPath,
        width: u16,
        height: u16,
        frames: Vec<AseFrame>,
        tags: Vec<AseTag>,
    ) -> (image: Result<Image, ImageError>)
        ensures
            is_image_of_parts(image, path@, width, height, frames@, tags@),
            image is Ok <==> sheet_problem(width, height, frames@, tags@) is None,
    {
        match AseSheet::new(width, height, frames, tags) {
            Ok(sheet) => Ok(Image::Aseprite(sheet, path.duplicate())),
            Err(e) => Err(ImageError::Malformed(e)),
        }
    }
}

/// Whether `bitmap` is the sprite sheet of the authored file.
pub open spec fn is_sheet_of(bitmap: Bitmap, sheet: AseSheet) -> bool {
    &&& bitmap.view_width() == sheet.view_width() * columns_for(sheet.view_frames().len() as int)
    &&& bitmap.view_height() == sheet.view_height() * rows_for(sheet.view_frames().len() as int)
    &&& bitmap.view_bytes() == sheet_pixels(
        sheet.view_frames(),
        sheet.view_width() as int,
        sheet.view_height() as int,
    )
    &&& bitmap.view_path() is None
}

/// Whether `data` is what the authored file says of an element, with the
/// frame identities drawn from `before`, which leaves `after`.
pub open spec fn imported_from(
    data: AsepriteData,
    sheet: AseSheet,
    before: IdSource,
    after: IdSource,
) -> bool {
    &&& data.frame_size == (IVec2 { x: sheet.view_width() as i32, y: sheet.view_height() as i32 })
    &&& animation_views(data.animations@) == extracted_animations(
        sheet.view_frames(),
        sheet.view_tags(),
    )
    &&& forall|i: int|
        0 <= i < data.animations@.len() ==> (#[trigger] data.animations@[i]).new_frame == 1
            && data.animations@[i].new_range_start == 1 && data.animations@[i].new_range_end == 1
    &&& animations_numbered_from(data.animations@, before.next_frame())
    &&& after.next_frame() == id_after_many(before.next_frame(), total_frames(data.animations@))
    &&& after.next_element() == before.next_element()
    &&& after.next_hat() == before.next_hat()
}

/// The grid of a file that has a frame, and no more frames than the format
/// can count, has at most 256 columns, so a sprite sheet is less than 2^24
/// pixels wide and high.
pub proof fn lemma_grid_bounds(frame_count: int, grid: SheetGrid)
    requires
        0 < frame_count <= MAX_ASE_FRAMES,
        grid_of(frame_count, grid),
    ensures
        0 < grid.rows <= grid.columns <= 256,
{
    lemma_grid_holds_frames(frame_count, grid);
    let c = grid.columns as int;
    if c > 256 {
        assert((c - 1) * (c - 1) >= 256 * 256) by (nonlinear_arith)
            requires
                c - 1 >= 256,
        ;
    }
}

} // verus!

use vstd::prelude::*;

verus! {

/// The number of bytes in a pixel: red, green, blue and opacity.
pub const PIXEL_BITS: usize = 4;

/// A frame to draw on: pixels row after row, `width` to a row.
pub struct RenderFrame {
    pub width: u32,
    pub height: u32,
    pub buffer: Vec<[u8; PIXEL_BITS]>,
}

/// The place in the buffer of the pixel in column `x`, row `y`, for rows of
/// `width` pixels.
pub open spec fn pixel_index(width: int, x: int, y: int) -> int {
    x + y * width
}

/// Whether the place `index` belongs to a pixel of the rectangle whose corner
/// is column `x`, row `y`: to one of its first `rows` rows of `width` pixels
/// each, or to one of the first `extra` pixels of the row after them.
pub open spec fn rectangle_covers(
    frame_width: int,
    x: int,
    y: int,
    width: int,
    rows: int,
    extra: int,
    index: int,
) -> bool {
    exists|px: int, py: int|
        {
            &&& (y <= py < y + rows && x <= px < x + width) || (py == y + rows && x <= px < x
                + extra)
            &&& #[trigger] pixel_index(frame_width, px, py) == index
        }
}

impl RenderFrame {
    /// Whether the pixel at the place `index` can be addressed: it lies in the
    /// buffer and is not the last pixel of it.
    pub open spec fn addressable(&self, index: int) -> bool {
        0 <= index && index + 1 < self.buffer@.len()
    }

    /// A copy of every pixel, in buffer order.
    pub fn pixels(&self) -> (pixels: Vec<[u8; PIXEL_BITS]>)
        ensures
            pixels@ == self.buffer@,
    {
        let mut pixels: Vec<[u8; PIXEL_BITS]> = Vec::new();
        let mut index: usize = 0;
        while index < self.buffer.len()
            invariant
                index <= self.buffer@.len(),
                pixels@ == self.buffer@.take(index as int),
            decreases self.buffer@.len() - index,
        {
            pixels.push(self.buffer[index]);
            proof {
                assert(pixels@ =~= self.buffer@.take(index + 1));
            }
            index += 1;
        }
        proof {
            assert(self.buffer@.take(index as int) =~= self.buffer@);
        }
        pixels
    }

    /// Lends every pixel for writing, in buffer order.
    pub fn pixels_mut(&mut self) -> (pixels: &mut Vec<[u8; PIXEL_BITS]>)
        ensures
            *pixels == old(self).buffer,
            final(self).buffer == *final(pixels),
            final(self).width == old(self).width,
            final(self).height == old(self).height,
    {
        &mut self.buffer
    }

    /// The place of the pixel in column `x`, row `y`, if it can be addressed.
    pub fn pixel_place(&self, x: u32, y: u32) -> (place: Option<usize>)
        ensures
            place is Some <==> self.addressable(pixel_index(self.width as int, x as int, y as int)),
            place matches Some(index) ==> index == pixel_index(
                self.width as int,
                x as int,
                y as int,
            ),
    {
        proof {
            assert(0 <= y * self.width <= 0xFFFF_FFFF * 0xFFFF_FFFF) by (nonlinear_arith)
                requires
                    0 <= y <= 0xFFFF_FFFF,
                    0 <= self.width <= 0xFFFF_FFFF,
            ;
        }
        let index: u64 = x as u64 + y as u64 * self.width as u64;
        if index + 1 >= self.buffer.len() as u64 {
            None
        } else {
            Some(index as usize)
        }
    }

    /// The pixel in column `x`, row `y`, if it can be addressed.
    pub fn pixel(&self, x: u32, y: u32) -> (pixel: Option<&[u8; PIXEL_BITS]>)
        ensures
            pixel is Some <==> self.addressable(pixel_index(self.width as int, x as int, y as int)),
            pixel matches Some(color) ==> *color == self.buffer@[pixel_index(
                self.width as int,
                x as int,
                y as int,
            )],
    {
        match self.pixel_place(x, y) {
            Some(index) => Some(&self.buffer[index]),
            None => None,
        }
    }

    /// Lends the pixel in column `x`, row `y` for writing, if it can be
    /// addressed. Whatever is written through the loan is that pixel's new
    /// colour, and no other pixel changes.
    pub fn pixel_mut(&mut self, x: u32, y: u32) -> (pixel: Option<&mut [u8; PIXEL_BITS]>)
        ensures
            pixel is Some <==> old(self).addressable(
                pixel_index(old(self).width as int, x as int, y as int),
            ),
            final(self).width == old(self).width,
            final(self).height == old(self).height,
            match pixel {
                Some(color) => {
                    &&& *color == old(self).buffer@[pixel_index(
                        old(self).width as int,
                        x as int,
                        y as int,
                    )]
                    &&& final(self).buffer@ == old(self).buffer@.update(
                        pixel_index(old(self).width as int, x as int, y as int),
                        *final(color),
                    )
                },
                None => final(self).buffer@ == old(self).buffer@,
            },
    {
        match self.pixel_place(x, y) {
            Some(index) => Some(&mut self.buffer[index]),
            None => None,
        }
    }

    /// Colours the pixel in column `x`, row `y`, if it can be addressed.
    pub fn draw_pixel(&mut self, x: u32, y: u32, color: [u8; PIXEL_BITS])
        ensures
            final(self).width == old(self).width,
            final(self).height == old(self).height,
            final(self).buffer@ == if old(self).addressable(
                pixel_index(old(self).width as int, x as int, y as int),
            ) {
                old(self).buffer@.update(
                    pixel_index(old(self).width as int, x as int, y as int),
                    color,
                )
            } else {
                old(self).buffer@
            },
    {
        match self.pixel_place(x, y) {
            Some(index) => {
                self.buffer[index] = color;
            },
            None => {},
        }
    }

    /// Colours every pixel of the rectangle of the given width and height
    /// whose corner is column `x`, row `y`, as far as it can be addressed.
    pub fn draw_square(&mut self, x: u32, y: u32, width: u32, height: u32, color: [u8; PIXEL_BITS])
        requires
            x + width <= u32::MAX,
            y + height <= u32::MAX,
        ensures
            final(self).width == old(self).width,
            final(self).height == old(self).height,
            final(self).buffer@.len() == old(self).buffer@.len(),
            forall|i: int|
                0 <= i < old(self).buffer@.len() ==> #[trigger] final(self).buffer@[i]
                    == if old(self).addressable(i) && rectangle_covers(
                    old(self).width as int,
                    x as int,
                    y as int,
                    width as int,
                    height as int,
                    0,
                    i,
                ) {
                    color
                } else {
                    old(self).buffer@[i]
                },
    {
        let mut row: u32 = 0;
        while row < height
            invariant
                x + width <= u32::MAX,
                y + height <= u32::MAX,
                row <= height,
                self.width == old(self).width,
                self.height == old(self).height,
                self.buffer@.len() == old(self).buffer@.len(),
                forall|i: int|
                    0 <= i < self.buffer@.len() ==> #[trigger] self.buffer@[i] == if old(
                        self,
                    ).addressable(i) && rectangle_covers(
                        self.width as int,
                        x as int,
                        y as int,
                        width as int,
                        row as int,
                        0,
                        i,
                    ) {
                        color
                    } else {
                        old(self).buffer@[i]
                    },
            decreases height - row,
        {
            let mut column: u32 = 0;
            while column < width
                invariant
                    x + width <= u32::MAX,
                    y + height <= u32::MAX,
                    row < height,
                    column <= width,
                    self.width == old(self).width,
                    self.height == old(self).height,
                    self.buffer@.len() == old(self).buffer@.len(),
                    forall|i: int|
                        0 <= i < self.buffer@.len() ==> #[trigger] self.buffer@[i] == if old(
                            self,
                        ).addressable(i) && rectangle_covers(
                            self.width as int,
                            x as int,
                            y as int,
                            width as int,
                            row as int,
                            column as int,
                            i,
                        ) {
                            color
                        } else {
                            old(self).buffer@[i]
                        },
                decreases width - column,
            {
                let ghost before = self.buffer@;
                let ghost place = pixel_index(
                    self.width as int,
                    (x + column) as int,
                    (y + row) as int,
                );
                self.draw_pixel(x + column, y + row, color);
                proof {
                    let fw = self.width as int;
                    assert forall|i: int| 0 <= i < self.buffer@.len() implies (rectangle_covers(
                        fw,
                        x as int,
                        y as int,
                        width as int,
                        row as int,
                        column + 1,
                        i,
                    ) <==> (rectangle_covers(
                        fw,
                        x as int,
                        y as int,
                        width as int,
                        row as int,
                        column as int,
                        i,
                    ) || i == place)) by {
                        if rectangle_covers(
                            fw,
                            x as int,
                            y as int,
                            width as int,
                            row as int,
                            column as int,
                            i,
                        ) {
                            let (px, py) = choose|px: int, py: int|
                                {
                                    &&& (y <= py < y + row && x <= px < x + width) || (py == y + row
                                        && x <= px < x + column)
                                    &&& #[trigger] pixel_index(fw, px, py) == i
                                };
                            assert(pixel_index(fw, px, py) == i);
                        }
                        if i == place {
                            assert(pixel_index(fw, (x + column) as int, (y + row) as int) == i);
                        }
                    }
                }
                column += 1;
            }
            proof {
                let fw = self.width as int;
                assert forall|i: int| 0 <= i < self.buffer@.len() implies (rectangle_covers(
                    fw,
                    x as int,
                    y as int,
                    width as int,
                    row + 1,
                    0,
                    i,
                ) <==> rectangle_covers(
                    fw,
                    x as int,
                    y as int,
                    width as int,
                    row as int,
                    width as int,
                    i,
                )) by {
                    if rectangle_covers(fw, x as int, y as int, width as int, row + 1, 0, i) {
                        let (px, py) = choose|px: int, py: int|
                            {
                                &&& (y <= py < y + (row + 1) && x <= px < x + width) || (py == y + (
                                row + 1) && x <= px < x + 0)
                                &&& #[trigger] pixel_index(fw, px, py) == i
                            };
                        assert(pixel_index(fw, px, py) == i);
                    }
                    if rectangle_covers(
                        fw,
                        x as int,
                        y as int,
                        width as int,
                        row as int,
                        width as int,
                        i,
                    ) {
                        let (px, py) = choose|px: int, py: int|
                            {
                                &&& (y <= py < y + row && x <= px < x + width) || (py == y + row && x
                                    <= px < x + width)
                                &&& #[trigger] pixel_index(fw, px, py) == i
                            };
                        assert(pixel_index(fw, px, py) == i);
                    }
                }
            }
            row += 1;
        }
    }

    /// Colours every pixel of the buffer.
    pub fn fill(&mut self, color: [u8; PIXEL_BITS])
        ensures
            final(self).width == old(self).width,
            final(self).height == old(self).height,
            final(self).buffer@.len() == old(self).buffer@.len(),
            forall|i: int| 0 <= i < final(self).buffer@.len() ==> final(self).buffer@[i] == color,
    {
        let mut index: usize = 0;
        while index < self.buffer.len()
            invariant
                index <= self.buffer@.len(),
                self.width == old(self).width,
                self.height == old(self).height,
                self.buffer@.len() == old(self).buffer@.len(),
                forall|i: int| 0 <= i < index ==> self.buffer@[i] == color,
            decreases self.buffer@.len() - index,
        {
            self.buffer[index] = color;
            index += 1;
        }
    }
}

} // verus!

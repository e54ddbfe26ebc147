use vstd::prelude::*;

verus! {

/// An eight-bit, straight-alpha RGBA color.
#[derive(Clone, Copy, Debug, PartialEq, Eq, Structural)]
pub struct Color {
    pub red: u8,
    pub green: u8,
    pub blue: u8,
    pub alpha: u8,
}

impl Color {
    pub fn transparent() -> (c: Self)
        ensures
            c == (Color { red: 0, green: 0, blue: 0, alpha: 0 }),
    {
        Self::rgba(0, 0, 0, 0)
    }

    pub fn white() -> (c: Self)
        ensures
            c == (Color { red: 255, green: 255, blue: 255, alpha: 255 }),
    {
        Self::rgb(255, 255, 255)
    }

    pub fn black() -> (c: Self)
        ensures
            c == (Color { red: 0, green: 0, blue: 0, alpha: 255 }),
    {
        Self::rgb(0, 0, 0)
    }

    /// An opaque color.
    pub fn rgb(red: u8, green: u8, blue: u8) -> (c: Self)
        ensures
            c == (Color { red, green, blue, alpha: 255 }),
    {
        Self::rgba(red, green, blue, 255)
    }

    pub fn rgba(red: u8, green: u8, blue: u8, alpha: u8) -> (c: Self)
        ensures
            c == (Color { red, green, blue, alpha }),
    {
        Self { red, green, blue, alpha }
    }

    /// The four channels in RGBA order.
    pub fn channels(self) -> (r: [u8; 4])
        ensures
            r@ == seq![self.red, self.green, self.blue, self.alpha],
    {
        [self.red, self.green, self.blue, self.alpha]
    }
}

/// An error produced while constructing an image.
#[derive(Clone, Copy, Debug, PartialEq, Eq, Structural)]
pub enum ImageError {
    InvalidPixelCount { width: u32, height: u32, actual: usize },
    DimensionsTooLarge,
}

/// Number of RGBA bytes of a `width` by `height` image.
pub open spec fn byte_len(width: u32, height: u32) -> int {
    width as int * height as int * 4
}

pub proof fn lemma_pixel_offset(width: u32, height: u32, x: int, y: int)
    requires
        0 <= x < width,
        0 <= y < height,
    ensures
        0 <= (y * width + x) * 4,
        (y * width + x) * 4 + 4 <= byte_len(width, height),
{
    assert(y * width + x < height as int * width as int) by (nonlinear_arith)
        requires
            0 <= x < width,
            0 <= y < height,
    ;
    assert(0 <= y * width) by (nonlinear_arith)
        requires
            0 <= y,
            0 <= width,
    ;
    assert(height as int * width as int == width as int * height as int) by (nonlinear_arith);
}

/// The number of RGBA bytes for the given dimensions, when it fits in `usize`.
pub fn pixel_byte_len(width: u32, height: u32) -> (r: Result<usize, ImageError>)
    ensures
        byte_len(width, height) <= usize::MAX ==> r == Ok::<usize, ImageError>(
            byte_len(width, height) as usize,
        ),
        byte_len(width, height) > usize::MAX ==> r == Err::<usize, ImageError>(
            ImageError::DimensionsTooLarge,
        ),
{
    let w = width as u64;
    let h = height as u64;
    assert(w as int * h as int <= u64::MAX) by (nonlinear_arith)
        requires
            w <= u32::MAX,
            h <= u32::MAX,
    ;
    let pixels = w * h;
    match pixels.checked_mul(4) {
        Some(length) => {
            if length <= usize::MAX as u64 {
                Ok(length as usize)
            } else {
                Err(ImageError::DimensionsTooLarge)
            }
        },
        None => {
            assert(byte_len(width, height) > u64::MAX);
            Err(ImageError::DimensionsTooLarge)
        },
    }
}

/// The color stored at byte offset `offset` of an RGBA byte sequence.
pub open spec fn color_at(pixels: Seq<u8>, offset: int) -> Color {
    Color {
        red: pixels[offset],
        green: pixels[offset + 1],
        blue: pixels[offset + 2],
        alpha: pixels[offset + 3],
    }
}

/// CPU-resident RGBA8 image data shared by procedural and imported assets.
#[derive(Debug, PartialEq, Eq)]
pub struct Image {
    width: u32,
    height: u32,
    pixels: Vec<u8>,
}

impl Clone for Image {
    fn clone(&self) -> (r: Self)
        ensures
            r.spec_width() == self.spec_width(),
            r.spec_height() == self.spec_height(),
            r.spec_pixels() == self.spec_pixels(),
    {
        proof {
            use_type_invariant(self);
        }
        Image { width: self.width, height: self.height, pixels: self.pixels.clone() }
    }
}

impl Image {
    #[verifier::type_invariant]
    spec fn sized(self) -> bool {
        self.pixels@.len() == byte_len(self.width, self.height)
    }

    pub closed spec fn spec_width(&self) -> u32 {
        self.width
    }

    pub closed spec fn spec_height(&self) -> u32 {
        self.height
    }

    /// Row-major RGBA bytes.
    pub closed spec fn spec_pixels(&self) -> Seq<u8> {
        self.pixels@
    }

    /// The color at a position inside the image.
    pub open spec fn spec_pixel(&self, x: int, y: int) -> Color {
        color_at(self.spec_pixels(), (y * self.spec_width() + x) * 4)
    }

    /// Creates an image from row-major RGBA8 pixels.
    pub fn new(width: u32, height: u32, pixels: Vec<u8>) -> (r: Result<Self, ImageError>)
        ensures
            byte_len(width, height) > usize::MAX ==> r == Err::<Self, ImageError>(
                ImageError::DimensionsTooLarge,
            ),
            byte_len(width, height) <= usize::MAX && pixels@.len() != byte_len(width, height)
                ==> r == Err::<Self, ImageError>(
                ImageError::InvalidPixelCount { width, height, actual: pixels@.len() as usize },
            ),
            pixels@.len() == byte_len(width, height) ==> (r matches Ok(image) && image.spec_width()
                == width && image.spec_height() == height && image.spec_pixels() == pixels@),
    {
        let actual = pixels.len();
        let expected = match pixel_byte_len(width, height) {
            Ok(expected) => expected,
            Err(error) => return Err(error),
        };
        if actual != expected {
            return Err(ImageError::InvalidPixelCount { width, height, actual });
        }
        Ok(Self { width, height, pixels })
    }

    /// Generates an image entirely from code, one row after another.
    pub fn from_fn<F: Fn(u32, u32) -> Color>(width: u32, height: u32, pixel: F) -> (r: Result<
        Self,
        ImageError,
    >)
        requires
            forall|x: u32, y: u32| x < width && y < height ==> #[trigger] pixel.requires((x, y)),
        ensures
            byte_len(width, height) > usize::MAX ==> r == Err::<Self, ImageError>(
                ImageError::DimensionsTooLarge,
            ),
            byte_len(width, height) <= usize::MAX ==> (r matches Ok(image) && image.spec_width()
                == width && image.spec_height() == height && forall|x: u32, y: u32|
                x < width && y < height ==> pixel.ensures(
                    (x, y),
                    #[trigger] image.spec_pixel(x as int, y as int),
                )),
    {
        let expected = match pixel_byte_len(width, height) {
            Ok(expected) => expected,
            Err(error) => return Err(error),
        };
        let mut pixels: Vec<u8> = Vec::with_capacity(expected);
        let mut y: u32 = 0;
        while y < height
            invariant
                y <= height,
                byte_len(width, height) == expected,
                pixels@.len() == (y as int * width as int) * 4,
                forall|x: u32, y: u32| x < width && y < height ==> #[trigger] pixel.requires((x, y)),
                forall|px: u32, py: u32|
                    px < width && py < y ==> pixel.ensures(
                        (px, py),
                        #[trigger] color_at(pixels@, (py * width + px) * 4),
                    ),
            decreases height - y,
        {
            let mut x: u32 = 0;
            while x < width
                invariant
                    x <= width,
                    y < height,
                    byte_len(width, height) == expected,
                    pixels@.len() == (y as int * width as int + x as int) * 4,
                    forall|x: u32, y: u32|
                        x < width && y < height ==> #[trigger] pixel.requires((x, y)),
                    forall|px: u32, py: u32|
                        (px < width && py < y) || (py == y && px < x) ==> pixel.ensures(
                            (px, py),
                            #[trigger] color_at(pixels@, (py * width + px) * 4),
                        ),
                decreases width - x,
            {
                let color = pixel(x, y);
                let ghost before = pixels@;
                proof {
                    lemma_pixel_offset(width, height, x as int, y as int);
                }
                pixels.push(color.red);
                pixels.push(color.green);
                pixels.push(color.blue);
                pixels.push(color.alpha);
                proof {
                    assert forall|px: u32, py: u32|
                        (px < width && py < y) || (py == y && px < x + 1) implies pixel.ensures(
                        (px, py),
                        #[trigger] color_at(pixels@, (py * width + px) * 4),
                    ) by {
                        if py == y && px == x {
                            assert(color_at(pixels@, (py * width + px) * 4) == color);
                        } else {
                            let off = (py * width + px) * 4;
                            assert(off + 4 <= before.len()) by {
                                if py == y {
                                    assert(off + 4 <= before.len()) by (nonlinear_arith)
                                        requires
                                            py == y,
                                            px < x,
                                            off == (py * width + px) * 4,
                                            before.len() == (y as int * width as int + x as int)
                                                * 4,
                                    ;
                                }
                                if py < y {
                                    assert((py * width + px) < y as int * width as int)
                                        by (nonlinear_arith)
                                        requires
                                            px < width,
                                            py < y,
                                    ;
                                }
                            }
                            assert(off >= 0) by (nonlinear_arith)
                                requires
                                    px >= 0,
                                    py >= 0,
                                    width >= 0,
                                    off == (py * width + px) * 4,
                            ;
                            assert(color_at(pixels@, off) == color_at(before, off));
                        }
                    }
                }
                x += 1;
            }
            proof {
                assert((y as int * width as int + width as int) == (y as int + 1) * width as int)
                    by (nonlinear_arith);
            }
            y += 1;
        }
        proof {
            assert((height as int * width as int) * 4 == byte_len(width, height))
                by (nonlinear_arith);
        }
        let image = Self { width, height, pixels };
        Ok(image)
    }

    pub fn width(&self) -> (r: u32)
        ensures
            r == self.spec_width(),
    {
        self.width
    }

    pub fn height(&self) -> (r: u32)
        ensures
            r == self.spec_height(),
    {
        self.height
    }

    pub fn pixels(&self) -> (r: &[u8])
        ensures
            r@ == self.spec_pixels(),
            r@.len() == byte_len(self.spec_width(), self.spec_height()),
    {
        proof {
            use_type_invariant(self);
        }
        self.pixels.as_slice()
    }

    /// The color at a position, or `None` outside the image.
    pub fn pixel(&self, x: u32, y: u32) -> (r: Option<Color>)
        ensures
            x < self.spec_width() && y < self.spec_height() ==> r == Some(
                self.spec_pixel(x as int, y as int),
            ),
            !(x < self.spec_width() && y < self.spec_height()) ==> r is None,
    {
        proof {
            use_type_invariant(self);
        }
        if x >= self.width || y >= self.height {
            return None;
        }
        let len = self.pixels.len();
        proof {
            lemma_pixel_offset(self.width, self.height, x as int, y as int);
            assert(y as int * self.width as int <= (y as int * self.width as int + x) * 4)
                by (nonlinear_arith)
                requires
                    x >= 0,
                    y as int * self.width as int >= 0,
            ;
        }
        let offset = ((y as usize * self.width as usize) + x as usize) * 4;
        Some(
            Color::rgba(
                self.pixels[offset],
                self.pixels[offset + 1],
                self.pixels[offset + 2],
                self.pixels[offset + 3],
            ),
        )
    }
}

/// The FNV-1a hash of `bytes`: from the 64-bit offset basis, each byte is
/// mixed in by exclusive or, then multiplied by the 64-bit prime, wrapping.
pub open spec fn fnv1a(bytes: Seq<u8>) -> u64
    decreases bytes.len(),
{
    if bytes.len() == 0 {
        0xcbf2_9ce4_8422_2325
    } else {
        (fnv1a(bytes.drop_last()) ^ (bytes.last() as u64)).wrapping_mul(0x100_0000_01b3)
    }
}

/// A checksum of an image's RGBA bytes: their FNV-1a hash.
pub fn image_checksum(image: &Image) -> (r: u64)
    ensures
        r == fnv1a(image.spec_pixels()),
{
    let pixels = image.pixels();
    let mut hash: u64 = 0xcbf2_9ce4_8422_2325;
    let mut i: usize = 0;
    while i < pixels.len()
        invariant
            i <= pixels@.len(),
            pixels@ == image.spec_pixels(),
            hash == fnv1a(pixels@.take(i as int)),
        decreases pixels@.len() - i,
    {
        assert(pixels@.take(i + 1).drop_last() =~= pixels@.take(i as int));
        hash = (hash ^ (pixels[i] as u64)).wrapping_mul(0x100_0000_01b3);
        i += 1;
    }
    assert(pixels@.take(pixels@.len() as int) =~= pixels@);
    hash
}

/// Stable process-local handle to an image asset.
#[derive(Clone, Copy, Debug, PartialEq, Eq, Structural, PartialOrd, Ord, Hash)]
pub struct ImageId(pub u64);

impl ImageId {
    pub fn value(self) -> (r: u64)
        ensures
            r == self.0,
    {
        self.0
    }
}


/// Deterministically allocated CPU image assets.
///
/// Identifiers are handed out in increasing order and never reused.
pub struct ImageAssets {
    next_id: u64,
    ids: Vec<ImageId>,
    images: Vec<Image>,
}

impl ImageAssets {
    pub closed spec fn spec_next_id(&self) -> u64 {
        self.next_id
    }

    /// The identifiers of stored images, in increasing order.
    pub closed spec fn id_seq(&self) -> Seq<ImageId> {
        self.ids@
    }

    /// The stored images, parallel to `id_seq`.
    pub closed spec fn image_seq(&self) -> Seq<Image> {
        self.images@
    }

    /// The image stored under an identifier.
    pub open spec fn spec_get(&self, id: ImageId) -> Option<Image> {
        if self.id_seq().contains(id) {
            Some(self.image_seq()[self.id_seq().index_of(id)])
        } else {
            None
        }
    }

    pub closed spec fn wf(&self) -> bool {
        &&& self.ids@.len() == self.images@.len()
        &&& forall|i: int, j: int| 0 <= i < j < self.ids@.len() ==> self.ids@[i].0 < self.ids@[j].0
        &&& forall|i: int| 0 <= i < self.ids@.len() ==> self.ids@[i].0 < self.next_id
    }

    /// Identifiers at or after the next one hold no image.
    pub proof fn lemma_fresh(&self, id: ImageId)
        requires
            self.wf(),
            id.0 >= self.spec_next_id(),
        ensures
            self.spec_get(id) is None,
    {
        if self.id_seq().contains(id) {
            let i = choose|i: int| 0 <= i < self.ids@.len() && self.ids@[i] == id;
        }
    }

    /// Identifiers are never handed out twice: `insert` hands out the next
    /// identifier and raises it, and no operation lowers it, so an identifier
    /// handed out earlier differs from every one handed out later.
    pub proof fn law_ids_are_never_reused(before: Self, later: Self, earlier: ImageId)
        requires
            earlier.0 < before.spec_next_id(),
            before.spec_next_id() <= later.spec_next_id(),
        ensures
            ImageId(later.spec_next_id()) != earlier,
    {
    }

    pub fn new() -> (r: Self)
        ensures
            r.wf(),
            r.spec_next_id() == 0,
            r.id_seq() == Seq::<ImageId>::empty(),
            forall|id: ImageId| r.spec_get(id) is None,
    {
        Self { next_id: 0, ids: Vec::new(), images: Vec::new() }
    }

    /// Stores an image under the next identifier.
    pub fn insert(&mut self, image: Image) -> (id: ImageId)
        requires
            old(self).wf(),
            old(self).spec_next_id() < u64::MAX,
        ensures
            final(self).wf(),
            id == ImageId(old(self).spec_next_id()),
            final(self).spec_next_id() == old(self).spec_next_id() + 1,
            old(self).spec_get(id) is None,
            final(self).spec_get(id) == Some(image),
            forall|other: ImageId| other != id ==> #[trigger] final(self).spec_get(other) == old(self).spec_get(other),
            final(self).id_seq() == old(self).id_seq().push(id),
    {
        let ghost pre = *self;
        let id = ImageId(self.next_id);
        self.next_id = self.next_id + 1;
        self.ids.push(id);
        self.images.push(image);
        proof {
            assert(!pre.ids@.contains(id)) by {
                if pre.ids@.contains(id) {
                    let k = pre.ids@.index_of(id);
                    assert(pre.ids@[k].0 < pre.next_id);
                }
            }
            let n = pre.ids@.len() as int;
            assert(self.ids@.index_of(id) == n) by {
                self.ids@.index_of_first_ensures(id);
                assert(self.ids@[n] == id);
                let k = self.ids@.index_of(id);
                if k < n {
                    assert(pre.ids@[k] == id);
                }
            }
            assert forall|other: ImageId| other != id implies #[trigger] self.spec_get(other) == pre.spec_get(other) by {
                if pre.ids@.contains(other) {
                    let k = pre.ids@.index_of(other);
                    assert(self.ids@[k] == other);
                    assert(self.ids@.contains(other));
                    assert(self.ids@.index_of(other) == k) by {
                        let k2 = self.ids@.index_of(other);
                        if k2 != k {
                            if k2 < k {
                                assert(self.ids@[k2].0 < self.ids@[k].0);
                            } else {
                                assert(self.ids@[k].0 < self.ids@[k2].0);
                            }
                        }
                    }
                } else if self.ids@.contains(other) {
                    let k = self.ids@.index_of(other);
                    if k < n {
                        assert(pre.ids@[k] == other);
                    }
                }
            }
        }
        id
    }

    fn position(&self, id: ImageId) -> (r: Option<usize>)
        requires
            self.wf(),
        ensures
            r matches Some(i) ==> i < self.id_seq().len() && self.id_seq().index_of(id) == i
                && self.id_seq().contains(id),
            r is None ==> !self.id_seq().contains(id),
    {
        let mut i: usize = 0;
        while i < self.ids.len()
            invariant
                self.wf(),
                i <= self.ids@.len(),
                forall|j: int| 0 <= j < i ==> self.ids@[j] != id,
            decreases self.ids@.len() - i,
        {
            if self.ids[i].0 == id.0 {
                proof {
                    assert(self.ids@.contains(id));
                    let k = self.ids@.index_of(id);
                    if k != i as int {
                        if k < i {
                        } else {
                            assert(self.ids@[i as int].0 < self.ids@[k].0);
                        }
                    }
                }
                return Some(i);
            }
            i += 1;
        }
        None
    }

    /// The image stored under an identifier.
    pub fn get(&self, id: ImageId) -> (r: Option<&Image>)
        requires
            self.wf(),
        ensures
            r matches Some(image) ==> self.spec_get(id) == Some(*image),
            r is None ==> self.spec_get(id) is None,
    {
        match self.position(id) {
            Some(i) => Some(&self.images[i]),
            None => None,
        }
    }

    /// Removes and returns the image stored under an identifier.
    pub fn remove(&mut self, id: ImageId) -> (r: Option<Image>)
        requires
            old(self).wf(),
        ensures
            final(self).wf(),
            r == old(self).spec_get(id),
            final(self).spec_get(id) is None,
            forall|other: ImageId| other != id ==> #[trigger] final(self).spec_get(other) == old(self).spec_get(other),
            final(self).spec_next_id() == old(self).spec_next_id(),
    {
        let ghost pre = *self;
        match self.position(id) {
            Some(i) => {
                self.ids.remove(i);
                let image = self.images.remove(i);
                proof {
                    assert forall|a: int, b: int| 0 <= a < b < self.ids@.len() implies self.ids@[a].0 < self.ids@[b].0 by {
                        let a0 = if a < i { a } else { a + 1 };
                        let b0 = if b < i { b } else { b + 1 };
                        assert(pre.ids@[a0].0 < pre.ids@[b0].0);
                    }
                    assert forall|j: int| 0 <= j < self.ids@.len() implies self.ids@[j].0 < self.next_id by {
                        let j0 = if j < i { j } else { j + 1 };
                        assert(pre.ids@[j0].0 < pre.next_id);
                    }
                    assert(!self.ids@.contains(id)) by {
                        if self.ids@.contains(id) {
                            let k = self.ids@.index_of(id);
                            let k0 = if k < i { k } else { k + 1 };
                            assert(pre.ids@[k0] == id);
                            assert(k0 != i as int);
                            if k0 < i { assert(pre.ids@[k0].0 < pre.ids@[i as int].0); }
                            else { assert(pre.ids@[i as int].0 < pre.ids@[k0].0); }
                        }
                    }
                    assert forall|other: ImageId| other != id implies #[trigger] self.spec_get(other) == pre.spec_get(other) by {
                        if pre.ids@.contains(other) {
                            let k = pre.ids@.index_of(other);
                            assert(k != i as int);
                            let k1 = if k < i { k } else { k - 1 };
                            assert(self.ids@[k1] == other);
                            assert(self.ids@.contains(other));
                            let k2 = self.ids@.index_of(other);
                            if k2 != k1 {
                                if k2 < k1 { assert(self.ids@[k2].0 < self.ids@[k1].0); }
                                else { assert(self.ids@[k1].0 < self.ids@[k2].0); }
                            }
                        } else if self.ids@.contains(other) {
                            let k = self.ids@.index_of(other);
                            let k0 = if k < i { k } else { k + 1 };
                            assert(pre.ids@[k0] == other);
                        }
                    }
                }
                Some(image)
            },
            None => None,
        }
    }

    /// Number of stored images.
    pub fn len(&self) -> (r: usize)
        requires
            self.wf(),
        ensures
            r == self.id_seq().len(),
    {
        self.ids.len()
    }

    pub fn is_empty(&self) -> (r: bool)
        requires
            self.wf(),
        ensures
            r == (self.id_seq().len() == 0),
    {
        self.ids.len() == 0
    }
}

/// One nearest-neighbor image draw in framebuffer pixel coordinates.
#[derive(Clone, Copy, Debug, PartialEq, Eq, Structural)]
pub struct SpriteDraw {
    pub image: ImageId,
    pub x: i32,
    pub y: i32,
    pub layer: i32,
    pub order: i32,
    pub tint: Color,
    pub pixel_scale: u32,
}

impl SpriteDraw {
    /// An untinted, unscaled draw on layer 0 with order 0.
    pub fn new(image: ImageId, x: i32, y: i32) -> (r: Self)
        ensures
            r == (SpriteDraw {
                image,
                x,
                y,
                layer: 0,
                order: 0,
                tint: Color { red: 255, green: 255, blue: 255, alpha: 255 },
                pixel_scale: 1,
            }),
    {
        Self { image, x, y, layer: 0, order: 0, tint: Color::white(), pixel_scale: 1 }
    }

    pub fn with_layer(self, layer: i32) -> (r: Self)
        ensures
            r == (SpriteDraw { layer, ..self }),
    {
        SpriteDraw { layer, ..self }
    }

    pub fn with_order(self, order: i32) -> (r: Self)
        ensures
            r == (SpriteDraw { order, ..self }),
    {
        SpriteDraw { order, ..self }
    }

    pub fn with_tint(self, tint: Color) -> (r: Self)
        ensures
            r == (SpriteDraw { tint, ..self }),
    {
        SpriteDraw { tint, ..self }
    }

    /// Sets an integer nearest-neighbor scale, which must be non-zero.
    pub fn with_pixel_scale(self, pixel_scale: u32) -> (r: Self)
        requires
            pixel_scale > 0,
        ensures
            r == (SpriteDraw { pixel_scale, ..self }),
    {
        SpriteDraw { pixel_scale, ..self }
    }
}

/// An owned, renderer-neutral description of one 2D frame.
#[derive(Clone, Debug, PartialEq, Eq)]
pub struct RenderFrame {
    width: u32,
    height: u32,
    clear: Color,
    sprites: Vec<SpriteDraw>,
}

impl RenderFrame {
    pub closed spec fn spec_width(&self) -> u32 {
        self.width
    }

    pub closed spec fn spec_height(&self) -> u32 {
        self.height
    }

    pub closed spec fn spec_clear(&self) -> Color {
        self.clear
    }

    /// Sprite draws in insertion order.
    pub closed spec fn sprite_seq(&self) -> Seq<SpriteDraw> {
        self.sprites@
    }

    pub fn new(width: u32, height: u32, clear: Color) -> (r: Self)
        ensures
            r.spec_width() == width,
            r.spec_height() == height,
            r.spec_clear() == clear,
            r.sprite_seq() == Seq::<SpriteDraw>::empty(),
    {
        Self { width, height, clear, sprites: Vec::new() }
    }

    pub fn width(&self) -> (r: u32)
        ensures
            r == self.spec_width(),
    {
        self.width
    }

    pub fn height(&self) -> (r: u32)
        ensures
            r == self.spec_height(),
    {
        self.height
    }

    pub fn clear_color(&self) -> (r: Color)
        ensures
            r == self.spec_clear(),
    {
        self.clear
    }

    pub fn push(&mut self, sprite: SpriteDraw)
        ensures
            final(self).sprite_seq() == old(self).sprite_seq().push(sprite),
            final(self).spec_width() == old(self).spec_width(),
            final(self).spec_height() == old(self).spec_height(),
            final(self).spec_clear() == old(self).spec_clear(),
    {
        self.sprites.push(sprite);
    }

    pub fn sprites(&self) -> (r: &[SpriteDraw])
        ensures
            r@ == self.sprite_seq(),
    {
        self.sprites.as_slice()
    }
}

/// A rendering failure expressed independently of a renderer backend.
#[derive(Clone, Copy, Debug, PartialEq, Eq, Structural)]
pub enum RenderError {
    MissingImage(ImageId),
    InvalidFrameDimensions,
}

} // verus!

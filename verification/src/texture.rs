//! Reader for the block-compressed texture container.
//!
//! A container is a fixed header of [`HEADER_LEN`] bytes followed by the
//! mipmap payload, level 0 first. All multi-byte fields are little-endian.

use vstd::prelude::*;

verus! {

/// Number of bytes of the fixed header.
pub const HEADER_LEN: usize = 124;

/// Byte offset of the signed 32-bit height.
pub const HEIGHT_OFFSET: usize = 8;

/// Byte offset of the signed 32-bit width.
pub const WIDTH_OFFSET: usize = 12;

/// Byte offset of the unsigned 32-bit linear size (or pitch).
pub const LINEAR_SIZE_OFFSET: usize = 16;

/// Byte offset of the unsigned 32-bit mipmap count.
pub const MIPMAP_COUNT_OFFSET: usize = 24;

/// Byte offset of the four-character compression code.
pub const FOUR_CC_OFFSET: usize = 80;

/// `"DXT1"` packed little-endian.
pub const FOURCC_DXT1: u32 = 0x31545844;

/// `"DXT3"` packed little-endian.
pub const FOURCC_DXT3: u32 = 0x33545844;

/// `"DXT5"` packed little-endian.
pub const FOURCC_DXT5: u32 = 0x35545844;

/// GPU enumerant of RGBA data compressed in 8-byte blocks.
pub const GL_COMPRESSED_RGBA_S3TC_DXT1_EXT: u32 = 0x83F1;

/// GPU enumerant of RGBA data compressed in 16-byte blocks with explicit alpha.
pub const GL_COMPRESSED_RGBA_S3TC_DXT3_EXT: u32 = 0x83F2;

/// GPU enumerant of RGBA data compressed in 16-byte blocks with interpolated alpha.
pub const GL_COMPRESSED_RGBA_S3TC_DXT5_EXT: u32 = 0x83F3;

/// The block-compression schemes a payload can use.
#[derive(Clone, Copy, Debug, PartialEq, Eq, Structural)]
pub enum BlockFormat {
    /// 8 bytes per 4x4 block.
    Dxt1,
    /// 16 bytes per 4x4 block, explicit alpha.
    Dxt3,
    /// 16 bytes per 4x4 block, interpolated alpha.
    Dxt5,
}

impl BlockFormat {
    /// The format a four-character code stands for. A code that names none of
    /// the three formats falls back to [`BlockFormat::Dxt1`].
    pub open spec fn of_four_cc(code: u32) -> BlockFormat {
        if code == FOURCC_DXT3 {
            BlockFormat::Dxt3
        } else if code == FOURCC_DXT5 {
            BlockFormat::Dxt5
        } else {
            BlockFormat::Dxt1
        }
    }

    /// Bytes per compressed 4x4 block.
    pub open spec fn block_bytes(self) -> int {
        match self {
            BlockFormat::Dxt1 => 8,
            BlockFormat::Dxt3 => 16,
            BlockFormat::Dxt5 => 16,
        }
    }

    /// The GPU enumerant of the format.
    pub open spec fn enumerant(self) -> u32 {
        match self {
            BlockFormat::Dxt1 => GL_COMPRESSED_RGBA_S3TC_DXT1_EXT,
            BlockFormat::Dxt3 => GL_COMPRESSED_RGBA_S3TC_DXT3_EXT,
            BlockFormat::Dxt5 => GL_COMPRESSED_RGBA_S3TC_DXT5_EXT,
        }
    }

    /// Maps a four-character code to its format, falling back to
    /// [`BlockFormat::Dxt1`] for a code that is not recognised.
    pub fn from_four_cc(code: u32) -> (format: BlockFormat)
        ensures
            format == BlockFormat::of_four_cc(code),
    {
        if code == FOURCC_DXT3 {
            BlockFormat::Dxt3
        } else if code == FOURCC_DXT5 {
            BlockFormat::Dxt5
        } else {
            BlockFormat::Dxt1
        }
    }

    /// Bytes per compressed 4x4 block: 8 for [`BlockFormat::Dxt1`], 16 otherwise.
    pub fn block_size(self) -> (bytes: u64)
        ensures
            bytes == self.block_bytes(),
    {
        match self {
            BlockFormat::Dxt1 => 8,
            BlockFormat::Dxt3 => 16,
            BlockFormat::Dxt5 => 16,
        }
    }

    /// The enumerant under which the GPU knows the format.
    pub fn gl_format(self) -> (code: u32)
        ensures
            code == self.enumerant(),
    {
        match self {
            BlockFormat::Dxt1 => GL_COMPRESSED_RGBA_S3TC_DXT1_EXT,
            BlockFormat::Dxt3 => GL_COMPRESSED_RGBA_S3TC_DXT3_EXT,
            BlockFormat::Dxt5 => GL_COMPRESSED_RGBA_S3TC_DXT5_EXT,
        }
    }
}

/// The fields of the fixed header.
#[derive(Clone, Copy, Debug, PartialEq, Eq, Structural)]
pub struct TextureHeader {
    /// Height of level 0 in texels, as stored (signed).
    pub height: i32,
    /// Width of level 0 in texels, as stored (signed).
    pub width: i32,
    /// Byte length of level 0 (or its pitch).
    pub linear_size: u32,
    /// Number of mipmap levels the container claims to hold.
    pub mipmap_count: u32,
    /// Four-character compression code.
    pub four_cc: u32,
}

/// One mipmap level: where its bytes lie in the payload and how to hand them
/// to the GPU.
#[derive(Clone, Copy, Debug, PartialEq, Eq, Structural)]
pub struct Surface {
    /// Index of the level, 0 for the full-size image.
    pub level: u32,
    /// Width in texels.
    pub width: i32,
    /// Height in texels.
    pub height: i32,
    /// Offset of the first byte, counted from the start of the payload.
    pub offset: usize,
    /// Number of bytes.
    pub size: usize,
    /// Compression scheme of the bytes.
    pub format: BlockFormat,
}

/// Why a container could not be read.
#[derive(Clone, Copy, Debug, PartialEq, Eq, Structural)]
pub enum TextureError {
    /// The input is shorter than the fixed header.
    TruncatedHeader,
    /// A mipmap level reaches past the end of the payload.
    TruncatedPayload {
        /// Index of the first level that does not fit.
        level: u32,
        /// Byte offset in the payload at which that level begins.
        offset: usize,
    },
}

/// A container that was read in full: its header and its levels, level 0 first.
#[derive(Debug, PartialEq, Eq)]
pub struct CompressedTexture {
    /// The decoded header.
    pub header: TextureHeader,
    /// The mipmap levels in payload order.
    pub surfaces: Vec<Surface>,
}

/// A texture as it lives on the GPU.
#[derive(Clone, Copy, Debug, PartialEq, Eq, Structural)]
pub struct Texture {
    /// Name of the texture object.
    pub texture_id: u32,
    /// Width that was left when the chain of levels stopped.
    pub width: i32,
    /// Height that was left when the chain of levels stopped.
    pub height: i32,
}

/// The unsigned little-endian 32-bit number stored at `at`.
pub open spec fn le_u32_at(bytes: Seq<u8>, at: int) -> int {
    bytes[at] + 0x100 * bytes[at + 1] + 0x1_0000 * bytes[at + 2] + 0x100_0000 * bytes[at + 3]
}

/// The two's-complement little-endian 32-bit number stored at `at`.
pub open spec fn le_i32_at(bytes: Seq<u8>, at: int) -> int {
    let raw = le_u32_at(bytes, at);
    if raw >= 0x8000_0000 {
        raw - 0x1_0000_0000
    } else {
        raw
    }
}

/// The header that the first [`HEADER_LEN`] bytes of `bytes` encode.
pub open spec fn header_of(bytes: Seq<u8>) -> TextureHeader {
    TextureHeader {
        height: le_i32_at(bytes, HEIGHT_OFFSET as int) as i32,
        width: le_i32_at(bytes, WIDTH_OFFSET as int) as i32,
        linear_size: le_u32_at(bytes, LINEAR_SIZE_OFFSET as int) as u32,
        mipmap_count: le_u32_at(bytes, MIPMAP_COUNT_OFFSET as int) as u32,
        four_cc: le_u32_at(bytes, FOUR_CC_OFFSET as int) as u32,
    }
}

/// A dimension after `k` halvings. A negative dimension holds no texels and
/// counts as zero.
pub open spec fn halved(dimension: int, k: nat) -> int
    decreases k,
{
    if k == 0 {
        if dimension < 0 {
            0
        } else {
            dimension
        }
    } else {
        halved(dimension, (k - 1) as nat) / 2
    }
}

/// Halving leaves no more than the dimension divided by two as many times.
proof fn lemma_halved_step(dimension: int, k: nat, bound: int)
    requires
        halved(dimension, k) <= bound,
    ensures
        0 <= halved(dimension, k + 1) <= bound / 2,
        0 <= halved(dimension, k),
    decreases k,
{
    if k > 0 {
        lemma_halved_step(dimension, (k - 1) as nat, halved(dimension, (k - 1) as nat));
    }
}

/// After 31 halvings nothing is left of a dimension of 32 bits.
proof fn lemma_halved_out(dimension: int)
    requires
        dimension <= i32::MAX,
    ensures
        halved(dimension, 31) == 0,
{
    lemma_halved_step(dimension, 0, 0x7fff_ffff);
    lemma_halved_step(dimension, 1, 0x3fff_ffff);
    lemma_halved_step(dimension, 2, 0x1fff_ffff);
    lemma_halved_step(dimension, 3, 0x0fff_ffff);
    lemma_halved_step(dimension, 4, 0x07ff_ffff);
    lemma_halved_step(dimension, 5, 0x03ff_ffff);
    lemma_halved_step(dimension, 6, 0x01ff_ffff);
    lemma_halved_step(dimension, 7, 0x00ff_ffff);
    lemma_halved_step(dimension, 8, 0x007f_ffff);
    lemma_halved_step(dimension, 9, 0x003f_ffff);
    lemma_halved_step(dimension, 10, 0x001f_ffff);
    lemma_halved_step(dimension, 11, 0x000f_ffff);
    lemma_halved_step(dimension, 12, 0x0007_ffff);
    lemma_halved_step(dimension, 13, 0x0003_ffff);
    lemma_halved_step(dimension, 14, 0x0001_ffff);
    lemma_halved_step(dimension, 15, 0xffff);
    lemma_halved_step(dimension, 16, 0x7fff);
    lemma_halved_step(dimension, 17, 0x3fff);
    lemma_halved_step(dimension, 18, 0x1fff);
    lemma_halved_step(dimension, 19, 0x0fff);
    lemma_halved_step(dimension, 20, 0x07ff);
    lemma_halved_step(dimension, 21, 0x03ff);
    lemma_halved_step(dimension, 22, 0x01ff);
    lemma_halved_step(dimension, 23, 0xff);
    lemma_halved_step(dimension, 24, 0x7f);
    lemma_halved_step(dimension, 25, 0x3f);
    lemma_halved_step(dimension, 26, 0x1f);
    lemma_halved_step(dimension, 27, 0x0f);
    lemma_halved_step(dimension, 28, 0x07);
    lemma_halved_step(dimension, 29, 0x03);
    lemma_halved_step(dimension, 30, 0x01);
}

/// Number of 4-texel blocks needed to cover `dimension` texels.
pub open spec fn blocks_across(dimension: int) -> int {
    (dimension + 3) / 4
}

impl TextureHeader {
    /// The compression scheme of the payload.
    pub open spec fn format(self) -> BlockFormat {
        BlockFormat::of_four_cc(self.four_cc)
    }

    /// Width of level `k`.
    pub open spec fn level_width(self, k: nat) -> int {
        halved(self.width as int, k)
    }

    /// Height of level `k`.
    pub open spec fn level_height(self, k: nat) -> int {
        halved(self.height as int, k)
    }

    /// Byte length of level `k`: one block for every 4x4 tile it touches.
    pub open spec fn level_size(self, k: nat) -> int {
        blocks_across(self.level_width(k)) * blocks_across(self.level_height(k))
            * self.format().block_bytes()
    }

    /// Offset of level `k` in the payload: the levels before it, end to end.
    pub open spec fn level_offset(self, k: nat) -> int
        decreases k,
    {
        if k == 0 {
            0
        } else {
            self.level_offset((k - 1) as nat) + self.level_size((k - 1) as nat)
        }
    }

    /// Offset just past the last byte of level `k`.
    pub open spec fn level_end(self, k: nat) -> int {
        self.level_offset(k) + self.level_size(k)
    }

    /// True when the chain of levels stops before level `k`: the mipmap count
    /// is used up, or neither dimension has a texel left.
    pub open spec fn stops_at(self, k: nat) -> bool {
        k >= self.mipmap_count || (self.level_width(k) <= 0 && self.level_height(k) <= 0)
    }

    /// The first level at or after `k` at which the chain stops.
    pub open spec fn walk_end(self, k: nat) -> nat
        decreases self.mipmap_count - k,
    {
        if self.stops_at(k) {
            k
        } else {
            self.walk_end(k + 1)
        }
    }

    /// Number of levels in the chain.
    pub open spec fn level_count(self) -> nat {
        self.walk_end(0)
    }

    /// Byte length the header declares for the payload: the linear size, or
    /// twice that when the container holds more than one level.
    pub open spec fn payload_size(self) -> int {
        if self.mipmap_count > 1 {
            2 * self.linear_size
        } else {
            self.linear_size as int
        }
    }

    /// Bytes of payload that a container of `len` bytes in all really has: what
    /// the header declares, cut down to what follows the header.
    pub open spec fn available_payload(self, len: int) -> int {
        if self.payload_size() <= len - HEADER_LEN {
            self.payload_size()
        } else {
            len - HEADER_LEN
        }
    }

    /// True when `surface` is level `k` of this header's chain.
    pub open spec fn describes(self, surface: Surface, k: nat) -> bool {
        &&& surface.level == k
        &&& surface.width == self.level_width(k)
        &&& surface.height == self.level_height(k)
        &&& surface.offset == self.level_offset(k)
        &&& surface.size == self.level_size(k)
        &&& surface.format == self.format()
    }

    /// The walk from level `k` stops at the first level, at or after `k`, at
    /// which the chain stops.
    pub proof fn lemma_walk_end(self, k: nat)
        ensures
            k <= self.walk_end(k),
            self.stops_at(self.walk_end(k)),
            forall|j: nat| k <= j < self.walk_end(k) ==> !self.stops_at(j),
        decreases self.mipmap_count - k,
    {
        if !self.stops_at(k) {
            self.lemma_walk_end(k + 1);
        }
    }

    /// The chain has no more levels than the header counts, and every level
    /// of it has a texel in at least one dimension.
    pub proof fn lemma_level_count(self)
        ensures
            self.level_count() <= self.mipmap_count,
            forall|k: nat|
                k < self.level_count() ==> self.level_width(k) > 0 || self.level_height(k) > 0,
            self.level_count() < self.mipmap_count ==> self.level_width(self.level_count()) <= 0
                && self.level_height(self.level_count()) <= 0,
    {
        self.lemma_walk_end(0);
        if self.level_count() > self.mipmap_count {
            assert(self.stops_at(self.mipmap_count as nat));
        }
        assert forall|k: nat| k < self.level_count() implies self.level_width(k) > 0
            || self.level_height(k) > 0 by {
            assert(!self.stops_at(k));
        }
    }

    /// The chain has at most 31 levels, however many the header counts: no
    /// dimension of 32 bits has a texel left after 31 halvings.
    pub proof fn lemma_chain_is_short(self)
        ensures
            self.level_count() <= 31,
    {
        lemma_halved_out(self.width as int);
        lemma_halved_out(self.height as int);
        assert(self.stops_at(31));
        self.lemma_walk_end(0);
    }

    /// True when level `k` is the first of the chain that ends past a payload
    /// of `available` bytes.
    pub open spec fn is_first_overrun(self, available: int, k: nat) -> bool {
        &&& k < self.level_count()
        &&& self.level_end(k) > available
        &&& forall|j: nat| j < k ==> #[trigger] self.level_end(j) <= available
    }

    /// The first level of the chain that ends past a payload of `available`
    /// bytes, if there is one.
    pub open spec fn first_overrun(self, available: int) -> Option<nat> {
        if exists|k: nat| self.is_first_overrun(available, k) {
            Some(choose|k: nat| self.is_first_overrun(available, k))
        } else {
            None
        }
    }

    /// Where a level of the chain ends past the payload, a first such level
    /// exists.
    proof fn lemma_overrun_has_first(self, available: int, k: nat)
        requires
            k < self.level_count(),
            self.level_end(k) > available,
        ensures
            self.first_overrun(available) is Some,
        decreases k,
    {
        if exists|j: nat| j < k && #[trigger] self.level_end(j) > available {
            let j = choose|j: nat| j < k && #[trigger] self.level_end(j) > available;
            self.lemma_overrun_has_first(available, j);
        } else {
            assert(self.is_first_overrun(available, k));
        }
    }

    /// A payload is overrun exactly when some level of the chain ends past
    /// it.
    pub proof fn lemma_overrun(self, available: int)
        ensures
            self.first_overrun(available) is Some <==> exists|k: nat|
                k < self.level_count() && #[trigger] self.level_end(k) > available,
    {
        if exists|k: nat| k < self.level_count() && #[trigger] self.level_end(k) > available {
            let k = choose|k: nat| k < self.level_count() && #[trigger] self.level_end(k) > available;
            self.lemma_overrun_has_first(available, k);
        }
        if self.first_overrun(available) is Some {
            let k = choose|k: nat| self.is_first_overrun(available, k);
            assert(k < self.level_count() && self.level_end(k) > available);
        }
    }

    /// A first level that ends past the payload is the only one.
    pub proof fn lemma_first_overrun_is(self, available: int, k: nat)
        requires
            self.is_first_overrun(available, k),
        ensures
            self.first_overrun(available) == Some(k),
    {
        let found = choose|found: nat| self.is_first_overrun(available, found);
        if found < k {
            assert(self.level_end(found) <= available);
        }
        if k < found {
            assert(self.level_end(k) <= available);
        }
    }
}

/// The error, if any, with which reading `bytes` fails: a header that is cut
/// short, or else the first level of the chain that ends past the payload.
pub open spec fn fault_of(bytes: Seq<u8>) -> Option<TextureError> {
    if bytes.len() < HEADER_LEN {
        Some(TextureError::TruncatedHeader)
    } else {
        let header = header_of(bytes);
        match header.first_overrun(header.available_payload(bytes.len() as int)) {
            Some(k) => Some(
                TextureError::TruncatedPayload {
                    level: k as u32,
                    offset: header.level_offset(k) as usize,
                },
            ),
            None => None,
        }
    }
}

/// Reads the unsigned little-endian 32-bit number at `at`.
fn read_u32(bytes: &[u8], at: usize) -> (value: u32)
    requires
        at + 4 <= bytes@.len(),
    ensures
        value == le_u32_at(bytes@, at as int),
{
    let b0: u32 = bytes[at] as u32;
    let b1: u32 = bytes[at + 1] as u32;
    let b2: u32 = bytes[at + 2] as u32;
    let b3: u32 = bytes[at + 3] as u32;
    b0 + 0x100 * b1 + 0x1_0000 * b2 + 0x100_0000 * b3
}

/// Reads the two's-complement little-endian 32-bit number at `at`.
fn read_i32(bytes: &[u8], at: usize) -> (value: i32)
    requires
        at + 4 <= bytes@.len(),
    ensures
        value == le_i32_at(bytes@, at as int),
{
    let raw: u32 = read_u32(bytes, at);
    if raw >= 0x8000_0000 {
        let wide: i64 = raw as i64 - 0x1_0000_0000;
        wide as i32
    } else {
        raw as i32
    }
}

/// A dimension as the level chain starts with it: zero in place of a negative
/// value.
fn clamp_dimension(dimension: i32) -> (start: u32)
    ensures
        start == halved(dimension as int, 0),
{
    if dimension < 0 {
        0
    } else {
        dimension as u32
    }
}

impl TextureHeader {
    /// Decodes the header from the first [`HEADER_LEN`] bytes of a container.
    /// Returns `None` exactly when fewer bytes are given.
    pub fn decode(bytes: &[u8]) -> (header: Option<TextureHeader>)
        ensures
            header == if bytes@.len() < HEADER_LEN {
                None
            } else {
                Some(header_of(bytes@))
            },
    {
        if bytes.len() < HEADER_LEN {
            return None;
        }
        Some(
            TextureHeader {
                height: read_i32(bytes, HEIGHT_OFFSET),
                width: read_i32(bytes, WIDTH_OFFSET),
                linear_size: read_u32(bytes, LINEAR_SIZE_OFFSET),
                mipmap_count: read_u32(bytes, MIPMAP_COUNT_OFFSET),
                four_cc: read_u32(bytes, FOUR_CC_OFFSET),
            },
        )
    }

    /// The byte length that the header declares for the payload.
    pub fn declared_payload_size(&self) -> (size: u64)
        ensures
            size == self.payload_size(),
    {
        if self.mipmap_count > 1 {
            2 * (self.linear_size as u64)
        } else {
            self.linear_size as u64
        }
    }
}

/// The byte length of a level of the given dimensions.
fn size_of_level(width: u32, height: u32, format: BlockFormat) -> (size: u64)
    requires
        width <= i32::MAX,
        height <= i32::MAX,
    ensures
        size == blocks_across(width as int) * blocks_across(height as int) * format.block_bytes(),
        size <= 0x4000_0000_0000_0000,
{
    let across: u64 = (width as u64 + 3) / 4;
    let down: u64 = (height as u64 + 3) / 4;
    let block: u64 = format.block_size();
    assert(across * down <= 0x2000_0000 * 0x2000_0000) by (nonlinear_arith)
        requires
            across <= 0x2000_0000,
            down <= 0x2000_0000,
    ;
    assert(across * down * block <= 0x400_0000_0000_0000 * 16) by (nonlinear_arith)
        requires
            across * down <= 0x400_0000_0000_0000,
            block <= 16,
    ;
    across * down * block
}

/// Reads a container: decodes the header and lays out the chain of mipmap
/// levels over the payload.
///
/// The chain starts at level 0 with the header's width and height (a negative
/// dimension counts as zero). Each level takes one block per 4x4 tile, starts
/// where the level before it ends, and has half the width and height of that
/// level, rounded down. The chain stops when the header's mipmap count is used
/// up or when neither dimension has a texel left.
///
/// The payload is what the header declares (its linear size, doubled when the
/// mipmap count exceeds 1), cut down to the bytes that follow the header.
///
/// Every level that is returned lies inside the bytes that follow the
/// header.
///
/// Fails with [`TextureError::TruncatedHeader`] exactly when `bytes` is
/// shorter than the header, and otherwise with
/// [`TextureError::TruncatedPayload`] exactly when some level of the chain
/// ends past the payload; the error names the first such level and the
/// offset at which it begins.
pub fn parse(bytes: &[u8]) -> (result: Result<CompressedTexture, TextureError>)
    ensures
        bytes@.len() < HEADER_LEN <==> result == Err::<CompressedTexture, TextureError>(
            TextureError::TruncatedHeader,
        ),
        match result {
            Ok(texture) => {
                &&& fault_of(bytes@) is None
                &&& texture.header == header_of(bytes@)
                &&& texture.surfaces@.len() == texture.header.level_count()
                &&& forall|k: int|
                    0 <= k < texture.surfaces@.len() ==> texture.header.describes(
                        #[trigger] texture.surfaces@[k],
                        k as nat,
                    )
                &&& forall|k: int|
                    0 <= k < texture.surfaces@.len() ==> (#[trigger] texture.surfaces@[k]).offset
                        + texture.surfaces@[k].size <= bytes@.len() - HEADER_LEN
            },
            Err(error) => fault_of(bytes@) == Some(error),
        },
{
    let header = match TextureHeader::decode(bytes) {
        Some(header) => header,
        None => {
            return Err(TextureError::TruncatedHeader);
        },
    };
    let declared: u64 = header.declared_payload_size();
    let present: u64 = (bytes.len() - HEADER_LEN) as u64;
    let available: u64 = if declared <= present {
        declared
    } else {
        present
    };
    let format = BlockFormat::from_four_cc(header.four_cc);
    let mut surfaces: Vec<Surface> = Vec::new();
    let mut level: u32 = 0;
    let mut width: u32 = clamp_dimension(header.width);
    let mut height: u32 = clamp_dimension(header.height);
    let mut offset: u64 = 0;
    while level < header.mipmap_count && (width > 0 || height > 0)
        invariant
            bytes@.len() >= HEADER_LEN,
            header == header_of(bytes@),
            available == header.available_payload(bytes@.len() as int),
            available <= usize::MAX,
            format == header.format(),
            level <= header.mipmap_count,
            surfaces@.len() == level,
            width == header.level_width(level as nat),
            height == header.level_height(level as nat),
            width <= i32::MAX,
            height <= i32::MAX,
            offset == header.level_offset(level as nat),
            offset <= available,
            header.walk_end(level as nat) == header.level_count(),
            forall|k: int|
                0 <= k < level ==> header.describes(#[trigger] surfaces@[k], k as nat),
            forall|k: int|
                0 <= k < level ==> (#[trigger] surfaces@[k]).offset + surfaces@[k].size
                    <= available,
            forall|k: nat| k < level ==> #[trigger] header.level_end(k) <= available,
        decreases header.mipmap_count - level,
    {
        let size: u64 = size_of_level(width, height, format);
        if size > available - offset {
            proof {
                header.lemma_walk_end(level as nat);
                assert(header.is_first_overrun(available as int, level as nat));
                header.lemma_first_overrun_is(available as int, level as nat);
            }
            return Err(TextureError::TruncatedPayload { level, offset: offset as usize });
        }
        surfaces.push(
            Surface {
                level,
                width: width as i32,
                height: height as i32,
                offset: offset as usize,
                size: size as usize,
                format,
            },
        );
        offset = offset + size;
        width = width / 2;
        height = height / 2;
        level = level + 1;
    }
    proof {
        assert(header.stops_at(level as nat));
        assert(header.level_count() == level);
        if exists|k: nat| header.is_first_overrun(available as int, k) {
            let k = choose|k: nat| header.is_first_overrun(available as int, k);
            assert(header.level_end(k) <= available);
        }
    }
    Ok(CompressedTexture { header, surfaces })
}

impl Texture {
    /// Records the texture object `texture_id`, to which the levels of a
    /// container with the given header were handed.
    ///
    /// Width and height are what the walk along the chain of levels leaves
    /// behind: the header's dimensions halved once for every level of the
    /// chain.
    pub fn new(texture_id: u32, header: &TextureHeader) -> (texture: Texture)
        ensures
            texture.texture_id == texture_id,
            texture.width == header.level_width(header.level_count()),
            texture.height == header.level_height(header.level_count()),
    {
        let mut level: u32 = 0;
        let mut width: u32 = clamp_dimension(header.width);
        let mut height: u32 = clamp_dimension(header.height);
        while level < header.mipmap_count && (width > 0 || height > 0)
            invariant
                level <= header.mipmap_count,
                width == header.level_width(level as nat),
                height == header.level_height(level as nat),
                width <= i32::MAX,
                height <= i32::MAX,
                header.walk_end(level as nat) == header.level_count(),
            decreases header.mipmap_count - level,
        {
            width = width / 2;
            height = height / 2;
            level = level + 1;
        }
        assert(header.stops_at(level as nat));
        Texture { texture_id, width: width as i32, height: height as i32 }
    }
}

} // verus!

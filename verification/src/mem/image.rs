//! Parser for ESP-IDF app images.
//!
//! ```text
//! [ image header, 24 bytes ]
//! [ segment 0 header, 8 bytes ][ segment 0 data ]
//! [ segment 1 header, 8 bytes ][ segment 1 data ]
//! ...
//! [ checksum byte ][ zeroes up to a multiple of 16 ][ SHA-256, 32 bytes ]
//! ```
//!
//! The header gives the number of segments. What follows the last of them is
//! not read: neither checksum nor hash is validated.
use crate::bits::{half_of, le16, le32, word_of};
use vstd::prelude::*;

verus! {

/// The length of the image header.
pub const IMAGE_HEADER_LEN: usize = 24;

/// The length of a segment header: load address and data length, two
/// little-endian words.
pub const SEGMENT_HEADER_LEN: usize = 8;

/// The first byte of every app image.
pub const IMAGE_MAGIC: u8 = 0xE9;

/// The image header, field by field.
#[derive(Debug, Clone, Copy, PartialEq, Eq)]
pub struct ImageHeader {
    pub magic: u8,
    pub segment_count: u8,
    pub spi_mode: u8,
    /// SPI speed and flash size, a nibble each.
    pub spi_speed_size: u8,
    pub entry_addr: u32,
    pub wp_pin: u8,
    pub spi_pin_drv: [u8; 3],
    pub chip_id: u16,
    pub min_chip_rev: u8,
    pub min_chip_rev_full: u16,
    pub max_chip_rev_full: u16,
    pub reserved: [u8; 4],
    /// Not zero where a SHA-256 hash follows the segments.
    pub hash_appended: u8,
}

/// Where a segment's data lies in the image, and the address that it loads
/// to.
#[derive(Debug, Clone, Copy, PartialEq, Eq, Structural)]
pub struct SegmentDescriptor {
    pub load_addr: u32,
    pub file_offset: usize,
    pub len: usize,
}

/// An image's header and its segments, as many as the header says.
#[derive(Debug, PartialEq, Eq)]
pub struct ParsedImage {
    pub header: ImageHeader,
    pub segments: Vec<SegmentDescriptor>,
}

impl Clone for ParsedImage {
    fn clone(&self) -> (copy: Self)
        ensures
            copy.header == self.header,
            copy.segments@ == self.segments@,
    {
        let segments = self.segments.clone();
        assert(segments@ =~= self.segments@);
        ParsedImage { header: self.header, segments }
    }
}

/// Why an image could not be parsed.
#[derive(Debug, Clone, Copy, PartialEq, Eq)]
pub enum ImageParseError {
    /// There are fewer bytes than the header takes.
    TooShortForHeader { len: usize },
    /// The first byte is not [`IMAGE_MAGIC`].
    BadMagic { found: u8 },
    /// The image ends before or within the header of segment `index`.
    SegmentHeaderOutOfBounds { index: u8, file_offset: usize },
    /// The image ends within the data of segment `index`.
    SegmentDataOutOfBounds { index: u8, file_offset: usize, data_len: usize, image_len: usize },
}

/// The little-endian halfword at `at`.
pub open spec fn half_at(bytes: Seq<u8>, at: int) -> u16 {
    le16(bytes[at], bytes[at + 1])
}

/// The little-endian word at `at`.
pub open spec fn word_at(bytes: Seq<u8>, at: int) -> u32 {
    le32(bytes[at], bytes[at + 1], bytes[at + 2], bytes[at + 3])
}

/// `header` is what the first 24 bytes say.
pub open spec fn is_header_of(header: ImageHeader, bytes: Seq<u8>) -> bool {
    &&& header.magic == bytes[0]
    &&& header.segment_count == bytes[1]
    &&& header.spi_mode == bytes[2]
    &&& header.spi_speed_size == bytes[3]
    &&& header.entry_addr == word_at(bytes, 4)
    &&& header.wp_pin == bytes[8]
    &&& header.spi_pin_drv@ == bytes.subrange(9, 12)
    &&& header.chip_id == half_at(bytes, 12)
    &&& header.min_chip_rev == bytes[14]
    &&& header.min_chip_rev_full == half_at(bytes, 15)
    &&& header.max_chip_rev_full == half_at(bytes, 17)
    &&& header.reserved@ == bytes.subrange(19, 23)
    &&& header.hash_appended == bytes[23]
}

/// Where the header of segment `k` starts: each segment follows the one
/// before it.
pub open spec fn segment_start(bytes: Seq<u8>, k: int) -> int
    decreases k, 0int,
{
    if k <= 0 {
        IMAGE_HEADER_LEN as int
    } else {
        segment_start(bytes, k - 1) + SEGMENT_HEADER_LEN + segment_len(bytes, k - 1)
    }
}

/// The length of the data of segment `k`, as its header gives it.
pub open spec fn segment_len(bytes: Seq<u8>, k: int) -> int
    decreases k, 1int,
{
    if k < 0 { 0 } else { word_at(bytes, segment_start(bytes, k) + 4) as int }
}

/// The header of segment `k` lies within the image.
pub open spec fn header_fits(bytes: Seq<u8>, k: int) -> bool {
    segment_start(bytes, k) + SEGMENT_HEADER_LEN <= bytes.len()
}

/// The data of segment `k` lies within the image.
pub open spec fn data_fits(bytes: Seq<u8>, k: int) -> bool {
    segment_start(bytes, k) + SEGMENT_HEADER_LEN + segment_len(bytes, k) <= bytes.len()
}

/// Segments `0..n` lie within the image.
pub open spec fn segments_fit(bytes: Seq<u8>, n: int) -> bool {
    forall|k: int| 0 <= k < n ==> #[trigger] header_fits(bytes, k) && data_fits(bytes, k)
}

/// The descriptor of segment `k`.
pub open spec fn segment_at(bytes: Seq<u8>, k: int) -> SegmentDescriptor {
    SegmentDescriptor {
        load_addr: word_at(bytes, segment_start(bytes, k)),
        file_offset: (segment_start(bytes, k) + SEGMENT_HEADER_LEN) as usize,
        len: segment_len(bytes, k) as usize,
    }
}

/// The descriptors of segments `0..n`.
pub open spec fn segments_of(bytes: Seq<u8>, n: int) -> Seq<SegmentDescriptor> {
    Seq::new(n as nat, |k: int| segment_at(bytes, k))
}

/// The image starts with a header of the right kind.
pub open spec fn has_header(bytes: Seq<u8>) -> bool {
    bytes.len() >= IMAGE_HEADER_LEN && bytes[0] == IMAGE_MAGIC
}

/// The image parses: it has a header, and every segment that the header
/// counts lies within it.
pub open spec fn is_image(bytes: Seq<u8>) -> bool {
    has_header(bytes) && segments_fit(bytes, bytes[1] as int)
}

/// What parsing an image gives. Of the errors, the one of the first segment
/// that does not fit is given, and of its header before its data.
pub open spec fn parses_to(bytes: Seq<u8>, out: Result<ParsedImage, ImageParseError>) -> bool {
    match out {
        Ok(image) => {
            &&& is_image(bytes)
            &&& is_header_of(image.header, bytes)
            &&& image.segments@ == segments_of(bytes, bytes[1] as int)
        },
        Err(ImageParseError::TooShortForHeader { len }) => {
            &&& bytes.len() < IMAGE_HEADER_LEN
            &&& len == bytes.len()
        },
        Err(ImageParseError::BadMagic { found }) => {
            &&& bytes.len() >= IMAGE_HEADER_LEN
            &&& found == bytes[0]
            &&& found != IMAGE_MAGIC
        },
        Err(ImageParseError::SegmentHeaderOutOfBounds { index, file_offset }) => {
            &&& has_header(bytes)
            &&& index < bytes[1]
            &&& segments_fit(bytes, index as int)
            &&& !header_fits(bytes, index as int)
            &&& file_offset == segment_start(bytes, index as int)
        },
        Err(
            ImageParseError::SegmentDataOutOfBounds { index, file_offset, data_len, image_len },
        ) => {
            &&& has_header(bytes)
            &&& index < bytes[1]
            &&& segments_fit(bytes, index as int)
            &&& header_fits(bytes, index as int)
            &&& !data_fits(bytes, index as int)
            &&& file_offset == segment_start(bytes, index as int) + SEGMENT_HEADER_LEN
            &&& data_len == segment_len(bytes, index as int)
            &&& image_len == bytes.len()
        },
    }
}

fn half_from(bytes: &[u8], at: usize) -> (half: u16)
    requires
        at + 2 <= bytes@.len(),
    ensures
        half == half_at(bytes@, at as int),
{
    half_of(bytes[at], bytes[at + 1])
}

fn word_from(bytes: &[u8], at: usize) -> (word: u32)
    requires
        at + 4 <= bytes@.len(),
    ensures
        word == word_at(bytes@, at as int),
{
    word_of(bytes[at], bytes[at + 1], bytes[at + 2], bytes[at + 3])
}

fn parse_header(bytes: &[u8]) -> (header: ImageHeader)
    requires
        bytes@.len() >= IMAGE_HEADER_LEN,
    ensures
        is_header_of(header, bytes@),
{
    let header = ImageHeader {
        magic: bytes[0],
        segment_count: bytes[1],
        spi_mode: bytes[2],
        spi_speed_size: bytes[3],
        entry_addr: word_from(bytes, 4),
        wp_pin: bytes[8],
        spi_pin_drv: [bytes[9], bytes[10], bytes[11]],
        chip_id: half_from(bytes, 12),
        min_chip_rev: bytes[14],
        min_chip_rev_full: half_from(bytes, 15),
        max_chip_rev_full: half_from(bytes, 17),
        reserved: [bytes[19], bytes[20], bytes[21], bytes[22]],
        hash_appended: bytes[23],
    };
    assert(header.spi_pin_drv@ =~= bytes@.subrange(9, 12));
    assert(header.reserved@ =~= bytes@.subrange(19, 23));
    header
}

/// Parses an app image: its header and its table of segments.
pub fn parse_image(bytes: &[u8]) -> (out: Result<ParsedImage, ImageParseError>)
    ensures
        parses_to(bytes@, out),
        out is Ok <==> is_image(bytes@),
{
    if bytes.len() < IMAGE_HEADER_LEN {
        return Err(ImageParseError::TooShortForHeader { len: bytes.len() });
    }
    let magic: u8 = bytes[0];
    if magic != IMAGE_MAGIC {
        return Err(ImageParseError::BadMagic { found: magic });
    }
    let header = parse_header(bytes);

    let mut offset: usize = IMAGE_HEADER_LEN;
    let mut segments: Vec<SegmentDescriptor> = Vec::with_capacity(header.segment_count as usize);
    let mut index: u8 = 0;
    while index < header.segment_count
        invariant
            has_header(bytes@),
            header.segment_count == bytes@[1],
            index <= header.segment_count,
            offset <= bytes@.len(),
            offset == segment_start(bytes@, index as int),
            segments_fit(bytes@, index as int),
            segments@ =~= segments_of(bytes@, index as int),
        decreases header.segment_count - index,
    {
        if bytes.len() - offset < SEGMENT_HEADER_LEN {
            assert(!header_fits(bytes@, index as int));
            return Err(
                ImageParseError::SegmentHeaderOutOfBounds { index, file_offset: offset },
            );
        }
        let load_addr: u32 = word_from(bytes, offset);
        let data_len: usize = word_from(bytes, offset + 4) as usize;
        offset += SEGMENT_HEADER_LEN;
        assert(data_len == segment_len(bytes@, index as int));
        assert(header_fits(bytes@, index as int));
        if bytes.len() - offset < data_len {
            return Err(
                ImageParseError::SegmentDataOutOfBounds {
                    index,
                    file_offset: offset,
                    data_len,
                    image_len: bytes.len(),
                },
            );
        }
        assert(data_fits(bytes@, index as int));
        assert(segments_fit(bytes@, index + 1)) by {
            assert forall|k: int| 0 <= k < index + 1 implies #[trigger] header_fits(bytes@, k)
                && data_fits(bytes@, k) by {}
        }
        segments.push(SegmentDescriptor { load_addr, file_offset: offset, len: data_len });
        offset += data_len;
        index += 1;
    }
    Ok(ParsedImage { header, segments })
}

/// Two results that an image parses to are equal: the contract of
/// [`parse_image`] leaves no choice.
pub proof fn law_parse_is_determined(
    bytes: Seq<u8>,
    a: Result<ParsedImage, ImageParseError>,
    b: Result<ParsedImage, ImageParseError>,
)
    requires
        parses_to(bytes, a),
        parses_to(bytes, b),
    ensures
        a is Ok <==> b is Ok,
        a is Err ==> a == b,
        a is Ok ==> a->Ok_0.segments@ == b->Ok_0.segments@,
{
    match (a, b) {
        (
            Err(ImageParseError::SegmentHeaderOutOfBounds { index: i, .. }),
            Err(ImageParseError::SegmentHeaderOutOfBounds { index: j, .. }),
        ) => {
            assert(header_fits(bytes, i as int) || header_fits(bytes, j as int) || i == j);
        },
        (
            Err(ImageParseError::SegmentHeaderOutOfBounds { index: i, .. }),
            Err(ImageParseError::SegmentDataOutOfBounds { index: j, .. }),
        ) => {
            assert(!header_fits(bytes, i as int) && header_fits(bytes, j as int));
        },
        (
            Err(ImageParseError::SegmentDataOutOfBounds { index: i, .. }),
            Err(ImageParseError::SegmentHeaderOutOfBounds { index: j, .. }),
        ) => {
            assert(header_fits(bytes, i as int) && !header_fits(bytes, j as int));
        },
        (
            Err(ImageParseError::SegmentDataOutOfBounds { index: i, .. }),
            Err(ImageParseError::SegmentDataOutOfBounds { index: j, .. }),
        ) => {
            assert(header_fits(bytes, i as int) && header_fits(bytes, j as int));
        },
        _ => {},
    }
}

/// Every segment of an image lies within it, and the header of each follows
/// the data of the one before it, with nothing in between.
pub proof fn law_segments_are_packed(bytes: Seq<u8>, k: int)
    requires
        is_image(bytes),
        bytes.len() <= usize::MAX,
        0 <= k < bytes[1],
    ensures
        ({
            let s = segment_at(bytes, k);
            &&& s.file_offset + s.len <= bytes.len()
            &&& k == 0 ==> s.file_offset == IMAGE_HEADER_LEN + SEGMENT_HEADER_LEN
            &&& k > 0 ==> s.file_offset == segment_at(bytes, k - 1).file_offset + segment_at(
                bytes,
                k - 1,
            ).len + SEGMENT_HEADER_LEN
        }),
{
    assert(header_fits(bytes, k));
    lemma_segment_start_grows(bytes, k);
    if k > 0 {
        assert(header_fits(bytes, k - 1));
        lemma_segment_start_grows(bytes, k - 1);
    }
}

proof fn lemma_segment_start_grows(bytes: Seq<u8>, k: int)
    ensures
        segment_start(bytes, k) >= IMAGE_HEADER_LEN,
        segment_len(bytes, k) >= 0,
    decreases k,
{
    if k > 0 {
        lemma_segment_start_grows(bytes, k - 1);
    }
}

proof fn lemma_tail_is_ignored(bytes: Seq<u8>, tail: Seq<u8>, n: int, k: int)
    requires
        bytes.len() >= IMAGE_HEADER_LEN,
        segments_fit(bytes, n),
        0 <= k <= n,
    ensures
        segment_start(bytes + tail, k) == segment_start(bytes, k),
        k < n ==> segment_len(bytes + tail, k) == segment_len(bytes, k) && word_at(
            bytes + tail,
            segment_start(bytes, k),
        ) == word_at(bytes, segment_start(bytes, k)),
    decreases k,
{
    if k > 0 {
        lemma_tail_is_ignored(bytes, tail, n, k - 1);
    }
    lemma_segment_start_grows(bytes, k);
    if k < n {
        assert(header_fits(bytes, k));
    }
}

/// Whatever follows the last segment (checksum, padding, hash, anything) is
/// not read: with it or without it an image parses to the same header and
/// segments.
pub proof fn law_trailing_bytes_are_ignored(bytes: Seq<u8>, tail: Seq<u8>)
    requires
        is_image(bytes),
    ensures
        is_image(bytes + tail),
        segments_of(bytes + tail, bytes[1] as int) == segments_of(bytes, bytes[1] as int),
        (bytes + tail)[1] == bytes[1],
        forall|header: ImageHeader|
            is_header_of(header, bytes + tail) == is_header_of(header, bytes),
{
    let n = bytes[1] as int;
    assert forall|k: int| 0 <= k < n implies #[trigger] header_fits(bytes + tail, k) && data_fits(
        bytes + tail,
        k,
    ) && segment_at(bytes + tail, k) == segment_at(bytes, k) by {
        assert(header_fits(bytes, k));
        lemma_tail_is_ignored(bytes, tail, n, k);
    }
    assert(segments_of(bytes + tail, n) =~= segments_of(bytes, n)) by {
        assert forall|k: int| 0 <= k < n implies segments_of(bytes + tail, n)[k] == segments_of(
            bytes,
            n,
        )[k] by {
            assert(header_fits(bytes + tail, k));
        }
    }
    assert((bytes + tail).subrange(9, 12) =~= bytes.subrange(9, 12));
    assert((bytes + tail).subrange(19, 23) =~= bytes.subrange(19, 23));
}

// ---------------------------------------------------------------------
// Building an image
// ---------------------------------------------------------------------

/// What goes into a segment: the address that it loads to, and its data.
pub struct Piece {
    pub load_addr: u32,
    pub data: Seq<u8>,
}

/// The four bytes of a word, the least significant first.
pub open spec fn word_bytes(v: int) -> Seq<u8> {
    seq![
        (v % 0x100) as u8,
        ((v / 0x100) % 0x100) as u8,
        ((v / 0x1_0000) % 0x100) as u8,
        ((v / 0x100_0000) % 0x100) as u8,
    ]
}

/// The bytes of a segment: where it loads to, how long it is, its data.
pub open spec fn piece_bytes(piece: Piece) -> Seq<u8> {
    word_bytes(piece.load_addr as int) + word_bytes(piece.data.len() as int) + piece.data
}

/// The bytes of the first `n` segments, one after the other.
pub open spec fn pieces_bytes(pieces: Seq<Piece>, n: int) -> Seq<u8>
    decreases n,
{
    if n <= 0 { Seq::empty() } else { pieces_bytes(pieces, n - 1) + piece_bytes(pieces[n - 1]) }
}

/// The length of the first `n` segments, eight bytes and the data each.
pub open spec fn pieces_len(pieces: Seq<Piece>, n: int) -> int
    decreases n,
{
    if n <= 0 { 0 } else { pieces_len(pieces, n - 1) + 8 + pieces[n - 1].data.len() }
}

/// `head` is a header of 24 bytes that counts `n` segments.
pub open spec fn counts(head: Seq<u8>, n: int) -> bool {
    head.len() == 24 && head[0] == 0xe9 && head[1] == n
}

/// The data of every segment fits a word.
pub open spec fn pieces_fit(pieces: Seq<Piece>) -> bool {
    forall|k: int| 0 <= k < pieces.len() ==> (#[trigger] pieces[k]).data.len() < 0x1_0000_0000
}

/// An image: a header, the segments, and anything.
pub open spec fn built(head: Seq<u8>, pieces: Seq<Piece>, tail: Seq<u8>) -> Seq<u8> {
    head + pieces_bytes(pieces, pieces.len() as int) + tail
}

proof fn lemma_pieces_len(pieces: Seq<Piece>, n: int)
    requires
        0 <= n,
    ensures
        pieces_bytes(pieces, n).len() == pieces_len(pieces, n),
        pieces_len(pieces, n) >= 8 * n,
    decreases n,
{
    if n > 0 {
        lemma_pieces_len(pieces, n - 1);
    }
}

/// The bytes of segment `k` stand after those of the ones before it.
proof fn lemma_piece_within(pieces: Seq<Piece>, n: int, k: int)
    requires
        0 <= k < n <= pieces.len(),
    ensures
        ({
            let at = pieces_len(pieces, k);
            let len = 8 + pieces[k].data.len();
            &&& at + len <= pieces_len(pieces, n)
            &&& pieces_bytes(pieces, n).subrange(at, at + len) == piece_bytes(pieces[k])
        }),
    decreases n,
{
    lemma_pieces_len(pieces, n);
    lemma_pieces_len(pieces, n - 1);
    lemma_pieces_len(pieces, k);
    let at = pieces_len(pieces, k);
    let len = 8 + pieces[k].data.len();
    let all = pieces_bytes(pieces, n);
    if k < n - 1 {
        lemma_piece_within(pieces, n - 1, k);
        let before = pieces_bytes(pieces, n - 1);
        assert(all.subrange(at, at + len) =~= before.subrange(at, at + len));
    } else {
        assert(all.subrange(at, at + len) =~= piece_bytes(pieces[k]));
    }
}

proof fn lemma_word_bytes(v: u32)
    ensures
        le32(
            word_bytes(v as int)[0],
            word_bytes(v as int)[1],
            word_bytes(v as int)[2],
            word_bytes(v as int)[3],
        ) == v,
{
    crate::bits::law_word_of_its_bytes(v);
    assert(v as int / 0x100_0000 < 0x100);
}

/// What an image whose first `cut` bytes start with a header and segments says
/// of segment `k`, as far as it is there.
proof fn lemma_cut_image(head: Seq<u8>, pieces: Seq<Piece>, bytes: Seq<u8>, k: int)
    requires
        counts(head, pieces.len() as int),
        pieces_fit(pieces),
        24 <= bytes.len(),
        bytes.len() <= (head + pieces_bytes(pieces, pieces.len() as int)).len(),
        bytes == (head + pieces_bytes(pieces, pieces.len() as int)).take(bytes.len() as int),
        0 <= k <= pieces.len(),
        k > 0 ==> 24 + pieces_len(pieces, k) - pieces[k - 1].data.len() <= bytes.len(),
    ensures
        segment_start(bytes, k) == 24 + pieces_len(pieces, k),
        k < pieces.len() && 24 + pieces_len(pieces, k) + 8 <= bytes.len() ==> {
            &&& segment_len(bytes, k) == pieces[k].data.len()
            &&& word_at(bytes, segment_start(bytes, k)) == pieces[k].load_addr
        },
    decreases k,
{
    let n = pieces.len() as int;
    let whole = head + pieces_bytes(pieces, n);
    if k > 0 {
        lemma_pieces_len(pieces, k - 1);
        assert(pieces_len(pieces, k) == pieces_len(pieces, k - 1) + 8 + pieces[k - 1].data.len());
        if k > 1 {
            assert(pieces_len(pieces, k - 1) >= 0);
        }
        lemma_cut_image(head, pieces, bytes, k - 1);
    }
    if k < n && 24 + pieces_len(pieces, k) + 8 <= bytes.len() {
        let at = pieces_len(pieces, k);
        lemma_pieces_len(pieces, k);
        lemma_pieces_len(pieces, n);
        lemma_piece_within(pieces, n, k);
        let own = piece_bytes(pieces[k]);
        let (a, b) = (word_bytes(pieces[k].load_addr as int), word_bytes(pieces[k].data.len() as int));
        assert forall|i: int| 0 <= i < 8 implies bytes[24 + at + i] == own[i] by {
            assert(bytes[24 + at + i] == whole[24 + at + i]);
            assert(whole[24 + at + i] == pieces_bytes(pieces, n)[at + i]);
            assert(pieces_bytes(pieces, n).subrange(at, at + 8 + pieces[k].data.len())[i] == own[i]);
        }
        assert(own[0] == a[0] && own[1] == a[1] && own[2] == a[2] && own[3] == a[3]);
        assert(own[4] == b[0] && own[5] == b[1] && own[6] == b[2] && own[7] == b[3]);
        lemma_word_bytes(pieces[k].load_addr);
        lemma_word_bytes(pieces[k].data.len() as u32);
        let (p, q) = (24 + at, 24 + at + 4);
        assert(bytes[p + 0] == own[0] && bytes[p + 1] == own[1] && bytes[p + 2] == own[2] && bytes[p
            + 3] == own[3]);
        assert(bytes[p + 4] == own[4] && bytes[p + 5] == own[5] && bytes[p + 6] == own[6] && bytes[p
            + 7] == own[7]);
    }
}

/// What a built image says of segment `k`.
pub proof fn lemma_built_segment(head: Seq<u8>, pieces: Seq<Piece>, tail: Seq<u8>, k: int)
    requires
        counts(head, pieces.len() as int),
        pieces_fit(pieces),
        built(head, pieces, tail).len() <= usize::MAX,
        0 <= k < pieces.len(),
    ensures
        ({
            let bytes = built(head, pieces, tail);
            let segments = segments_of(bytes, pieces.len() as int);
            &&& is_image(bytes)
            &&& bytes[1] == pieces.len()
            &&& segments[k] == segment_at(bytes, k)
            &&& segments[k].load_addr == pieces[k].load_addr
            &&& segments[k].file_offset == 24 + pieces_len(pieces, k) + 8
            &&& segments[k].len == pieces[k].data.len()
        }),
{
    let n = pieces.len() as int;
    let core = head + pieces_bytes(pieces, n);
    lemma_core_is_image(head, pieces);
    law_trailing_bytes_are_ignored(core, tail);
    let bytes = built(head, pieces, tail);
    assert(bytes =~= core + tail);
    assert(bytes[1] == n);
    lemma_pieces_len(pieces, k);
    if k > 0 {
        lemma_pieces_len(pieces, k - 1);
    }
    lemma_kth_fits(head, pieces, k);
    lemma_cut_image(head, pieces, core, k);
    assert(segments_of(core, n)[k] == segment_at(core, k));
    assert(segments_of(bytes, n)[k] == segment_at(bytes, k));
}

/// Parsing undoes building: an image put together from a header, segments and
/// anything after them parses, and the segments come out as they went in, each
/// with the place of its data, eight bytes after where the one before ended.
pub proof fn law_parse_undoes_building(
    head: Seq<u8>,
    pieces: Seq<Piece>,
    tail: Seq<u8>,
    out: Result<ParsedImage, ImageParseError>,
    k: int,
)
    requires
        counts(head, pieces.len() as int),
        pieces_fit(pieces),
        built(head, pieces, tail).len() <= usize::MAX,
        parses_to(built(head, pieces, tail), out),
        0 <= k < pieces.len(),
    ensures
        is_image(built(head, pieces, tail)),
        out matches Ok(image) && {
            let segments = image.segments@;
            let at = 24 + pieces_len(pieces, k) + 8;
            &&& segments.len() == pieces.len()
            &&& segments[k].load_addr == pieces[k].load_addr
            &&& segments[k].file_offset == at
            &&& segments[k].len == pieces[k].data.len()
            &&& built(head, pieces, tail).subrange(at, at + pieces[k].data.len()) == pieces[k].data
        },
{
    lemma_built_segment(head, pieces, tail, k);
    lemma_not_refused(built(head, pieces, tail), out);
    lemma_data_of(head, pieces, tail, k);
}

/// The data of segment `k` is where its descriptor says.
pub proof fn lemma_data_of(head: Seq<u8>, pieces: Seq<Piece>, tail: Seq<u8>, k: int)
    requires
        head.len() == 24,
        0 <= k < pieces.len(),
    ensures
        ({
            let at = 24 + pieces_len(pieces, k) + 8;
            &&& 32 <= at <= at + pieces[k].data.len() <= built(head, pieces, tail).len()
            &&& built(head, pieces, tail).subrange(at, at + pieces[k].data.len()) == pieces[k].data
        }),
{
    let n = pieces.len() as int;
    lemma_pieces_len(pieces, n);
    lemma_pieces_len(pieces, k);
    lemma_piece_within(pieces, n, k);
    let all = pieces_bytes(pieces, n);
    let bytes = head + all + tail;
    let start = pieces_len(pieces, k);
    let own = piece_bytes(pieces[k]);
    let sub = all.subrange(start, start + 8 + pieces[k].data.len());
    let found = bytes.subrange(24 + start + 8, 24 + start + 8 + pieces[k].data.len());
    assert forall|i: int| 0 <= i < pieces[k].data.len() implies found[i] == pieces[k].data[i] by {
        assert(sub[8 + i] == own[8 + i]);
        assert(own[8 + i] == pieces[k].data[i]);
        assert(found[i] == all[start + 8 + i]);
    }
    assert(found =~= pieces[k].data);
}

/// Where an image parses nothing is refused.
proof fn lemma_not_refused(bytes: Seq<u8>, out: Result<ParsedImage, ImageParseError>)
    requires
        is_image(bytes),
        parses_to(bytes, out),
    ensures
        out is Ok,
{
    match out {
        Err(ImageParseError::SegmentHeaderOutOfBounds { index, .. }) => {
            assert(header_fits(bytes, index as int));
        },
        Err(ImageParseError::SegmentDataOutOfBounds { index, .. }) => {
            assert(header_fits(bytes, index as int));
        },
        _ => {},
    }
}

proof fn lemma_pieces_len_grows(pieces: Seq<Piece>, a: int, b: int)
    requires
        0 <= a <= b,
    ensures
        pieces_len(pieces, a) <= pieces_len(pieces, b),
    decreases b,
{
    if a < b {
        lemma_pieces_len_grows(pieces, a, b - 1);
    }
}

proof fn lemma_kth_fits(head: Seq<u8>, pieces: Seq<Piece>, k: int)
    requires
        counts(head, pieces.len() as int),
        0 <= k <= pieces.len(),
    ensures
        ({
            let core = head + pieces_bytes(pieces, pieces.len() as int);
            &&& core.len() == 24 + pieces_len(pieces, pieces.len() as int)
            &&& 24 + pieces_len(pieces, k) <= core.len()
            &&& k < pieces.len() ==> 24 + pieces_len(pieces, k) + 8 + pieces[k].data.len()
                <= core.len()
            &&& core == core.take(core.len() as int)
        }),
{
    let n = pieces.len() as int;
    lemma_pieces_len(pieces, n);
    lemma_pieces_len_grows(pieces, k, n);
    if k < n {
        lemma_pieces_len_grows(pieces, k + 1, n);
    }
    let core = head + pieces_bytes(pieces, n);
    assert(core =~= core.take(core.len() as int));
}

proof fn lemma_core_is_image(head: Seq<u8>, pieces: Seq<Piece>)
    requires
        counts(head, pieces.len() as int),
        pieces_fit(pieces),
    ensures
        is_image(head + pieces_bytes(pieces, pieces.len() as int)),
{
    let n = pieces.len() as int;
    let core = head + pieces_bytes(pieces, n);
    lemma_kth_fits(head, pieces, 0);
    assert(core[0] == 0xe9 && core[1] == n);
    assert forall|k: int| 0 <= k < n implies #[trigger] header_fits(core, k) && data_fits(core, k) by {
        lemma_kth_fits(head, pieces, k);
        lemma_cut_image(head, pieces, core, k);
    }
}

/// What an image that ends too early is refused for: the first segment that
/// is not whole, for its header where that is cut, else for its data.
pub proof fn law_cut_images_are_refused(
    head: Seq<u8>,
    pieces: Seq<Piece>,
    cut: int,
    k: int,
    out: Result<ParsedImage, ImageParseError>,
)
    requires
        counts(head, pieces.len() as int),
        pieces_fit(pieces),
        0 <= k < pieces.len(),
        24 + pieces_len(pieces, k) <= cut < 24 + pieces_len(pieces, k) + 8 + pieces[k].data.len(),
        cut <= usize::MAX,
        parses_to((head + pieces_bytes(pieces, pieces.len() as int)).take(cut), out),
    ensures
        ({
            let at = 24 + pieces_len(pieces, k);
            if cut < at + 8 {
                out matches Err(ImageParseError::SegmentHeaderOutOfBounds { index, file_offset })
                    && index == k && file_offset == at
            } else {
                out matches Err(
                    ImageParseError::SegmentDataOutOfBounds {
                        index,
                        file_offset,
                        data_len,
                        image_len,
                    },
                ) && index == k && file_offset == at + 8 && data_len == pieces[k].data.len()
                    && image_len == cut
            }
        }),
{
    let n = pieces.len() as int;
    let core = head + pieces_bytes(pieces, n);
    lemma_kth_fits(head, pieces, k);
    lemma_pieces_len(pieces, k);
    let bytes = core.take(cut);
    assert(bytes[0] == 0xe9 && bytes[1] == n);
    assert(bytes == core.take(bytes.len() as int));
    assert forall|j: int| 0 <= j < k implies #[trigger] header_fits(bytes, j) && data_fits(bytes, j) by {
        lemma_pieces_len_grows(pieces, j + 1, k);
        lemma_pieces_len(pieces, j);
        if j > 0 {
            lemma_pieces_len_grows(pieces, j, k);
        }
        lemma_cut_image(head, pieces, bytes, j);
    }
    lemma_cut_image(head, pieces, bytes, k);
    assert(!(header_fits(bytes, k) && data_fits(bytes, k)));
    match out {
        Ok(_) => {
            assert(header_fits(bytes, k));
        },
        Err(ImageParseError::SegmentHeaderOutOfBounds { index, .. }) => {
            if index < k {
                assert(header_fits(bytes, index as int));
            } else if index > k {
                assert(header_fits(bytes, k));
            }
        },
        Err(ImageParseError::SegmentDataOutOfBounds { index, .. }) => {
            if index < k {
                assert(header_fits(bytes, index as int) && data_fits(bytes, index as int));
            } else if index > k {
                assert(header_fits(bytes, k));
            }
        },
        _ => {},
    }
}

/// What is no image at all is refused for that: too few bytes, or another
/// first byte.
pub proof fn law_other_files_are_refused(
    bytes: Seq<u8>,
    out: Result<ParsedImage, ImageParseError>,
)
    requires
        parses_to(bytes, out),
    ensures
        bytes.len() < 24 ==> (out matches Err(ImageParseError::TooShortForHeader { len }) && len
            == bytes.len()),
        bytes.len() >= 24 && bytes[0] != 0xe9 ==> (out matches Err(
            ImageParseError::BadMagic { found },
        ) && found == bytes[0]),
{
}

/// The fields of the header, each where it stands: bytes as they are, numbers
/// the least significant byte first.
pub proof fn law_header_fields(bytes: Seq<u8>, header: ImageHeader)
    requires
        bytes.len() >= 24,
        is_header_of(header, bytes),
    ensures
        header.magic == bytes[0],
        header.segment_count == bytes[1],
        header.spi_mode == bytes[2],
        header.spi_speed_size == bytes[3],
        header.entry_addr == bytes[4] + 0x100 * bytes[5] + 0x1_0000 * bytes[6] + 0x100_0000
            * bytes[7],
        header.wp_pin == bytes[8],
        header.spi_pin_drv@[0] == bytes[9],
        header.spi_pin_drv@[1] == bytes[10],
        header.spi_pin_drv@[2] == bytes[11],
        header.chip_id == bytes[12] + 0x100 * bytes[13],
        header.min_chip_rev == bytes[14],
        header.min_chip_rev_full == bytes[15] + 0x100 * bytes[16],
        header.max_chip_rev_full == bytes[17] + 0x100 * bytes[18],
        header.reserved@[0] == bytes[19],
        header.reserved@[1] == bytes[20],
        header.reserved@[2] == bytes[21],
        header.reserved@[3] == bytes[22],
        header.hash_appended == bytes[23],
{
    let (a, b) = (bytes.subrange(9, 12), bytes.subrange(19, 23));
    assert(a[0] == bytes[9] && a[1] == bytes[10] && a[2] == bytes[11]);
    assert(b[0] == bytes[19] && b[1] == bytes[20] && b[2] == bytes[21] && b[3] == bytes[22]);
}

/// Every image that is put together parses, one without segments too, and
/// gives its header and as many segments as went in.
pub proof fn law_built_images_parse(
    head: Seq<u8>,
    pieces: Seq<Piece>,
    tail: Seq<u8>,
    out: Result<ParsedImage, ImageParseError>,
)
    requires
        counts(head, pieces.len() as int),
        pieces_fit(pieces),
        parses_to(built(head, pieces, tail), out),
    ensures
        is_image(built(head, pieces, tail)),
        out matches Ok(image) && image.segments@.len() == pieces.len() && is_header_of(
            image.header,
            head,
        ),
{
    let n = pieces.len() as int;
    let core = head + pieces_bytes(pieces, n);
    lemma_core_is_image(head, pieces);
    law_trailing_bytes_are_ignored(core, tail);
    let bytes = built(head, pieces, tail);
    assert(bytes =~= core + tail);
    lemma_not_refused(bytes, out);
    assert(bytes.subrange(9, 12) =~= head.subrange(9, 12));
    assert(bytes.subrange(19, 23) =~= head.subrange(19, 23));
}

} // verus!

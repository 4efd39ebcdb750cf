use vstd::prelude::*;
use crate::lookup::DictEntry;
use crate::lookup::GlyphRec;

verus! {

/// The alpha channel of an RGBA byte buffer: every fourth byte, starting at
/// the fourth. This is the only pixel data the output format keeps.
pub fn alpha_channel(rgba: &Vec<u8>) -> (r: Vec<u8>)
    ensures
        r@.len() == rgba@.len() / 4,
        forall|i: int| 0 <= i < r@.len() ==> r@[i] == rgba@[4 * i + 3],
{
    let n = rgba.len() / 4;
    let mut out: Vec<u8> = Vec::new();
    let mut i: usize = 0;
    while i < n
        invariant
            0 <= i <= n,
            n == rgba@.len() / 4,
            4 * (n as int) <= usize::MAX,
            out@.len() == i,
            forall|j: int| 0 <= j < i ==> out@[j] == rgba@[4 * j + 3],
        decreases n - i,
    {
        proof {
            assert(4 * (n as int) <= rgba@.len());
            assert(4 * (i as int) + 3 < rgba@.len());
        }
        out.push(rgba[4 * i + 3]);
        i = i + 1;
    }
    out
}

/// The bytes of the binary font encoding: bitmap, width, the direct-indexed
/// table, then the ordered dictionary. The encoding is a fixed function of
/// these four fields; this name stands for it.
pub uninterp spec fn font_wire_bytes(
    bitmap: Seq<u8>,
    width: u32,
    map16: Seq<GlyphRec>,
    dict32: Seq<DictEntry>,
) -> Seq<u8>;

/// The compressed form of a byte string at a given compression level; the
/// output is a fixed function of the bytes and the level.
pub uninterp spec fn compressed_bytes(data: Seq<u8>, level: i32) -> Seq<u8>;

/// A glyph record in the nested tuple shape of the persisted format.
fn rec_tuple(g: &GlyphRec) -> (t: ((u32, u32), (u8, u8), (i8, i8)))
    ensures
        t == (((g.x, g.y), (g.w, g.h), (g.off_x, g.off_y))),
{
    ((g.x, g.y), (g.w, g.h), (g.off_x, g.off_y))
}

/// Relies on postcard::to_allocvec, a deterministic, non-self-describing
/// binary encoding: a struct serializes exactly as the tuple of its fields in
/// order, a Vec as a varint length followed by its elements, and a BTreeMap
/// as a varint length followed by its (key, value) pairs in ascending key
/// order. On these argument types the call cannot fail: the allocating
/// flavor's push operations are infallible, and integers, tuples, Vec and
/// BTreeMap serialize without errors. The body only rearranges each record's
/// fields into the tuple shape of the persisted format before the one call.
#[verifier::external_body]
fn encode_font_bytes(
    bitmap: &Vec<u8>,
    width: u32,
    map16: &Vec<GlyphRec>,
    dict32: &Vec<DictEntry>,
) -> (r: Vec<u8>)
    ensures
        r@ == font_wire_bytes(bitmap@, width, map16@, dict32@),
{
    let glyphs: Vec<_> = map16.iter().map(rec_tuple).collect();
    let dict: std::collections::BTreeMap<[u16; 2], _> = dict32.iter().map(
        |e| ([e.k0, e.k1], rec_tuple(&e.rec)),
    ).collect();
    postcard::to_allocvec(&(bitmap, width, glyphs, dict)).unwrap()
}

/// Relies on zstd::encode_all: single-frame zstd compression of all the
/// bytes read from the source, at the given compression level. For a fixed
/// library version the frame it emits depends on the bytes and the level
/// alone. Within the standard level range (0 meaning the default) the call
/// cannot fail: the level parameter is accepted, and reading from an
/// in-memory slice and writing into the result vector are infallible.
#[verifier::external_body]
fn compress_bytes(data: &Vec<u8>, level: i32) -> (r: Vec<u8>)
    requires
        0 <= level <= 22,
    ensures
        r@ == compressed_bytes(data@, level),
{
    zstd::encode_all(std::io::Cursor::new(data.as_slice()), level).unwrap()
}

/// The compression level the serializer asks of the compressor: ratio is
/// favored over speed, since baking runs once at build time.
pub const COMPRESSION_LEVEL: i32 = 19;

/// The full serialized, compressed font asset as a function of its four
/// fields.
pub open spec fn serialized_font(
    bitmap: Seq<u8>,
    width: u32,
    map16: Seq<GlyphRec>,
    dict32: Seq<DictEntry>,
) -> Seq<u8> {
    compressed_bytes(font_wire_bytes(bitmap, width, map16, dict32), COMPRESSION_LEVEL)
}

/// The Serializer/Compressor: encodes the atlas bitmap (alpha bytes), its
/// width and the two lookup tiers into the binary format, then compresses
/// the whole buffer at a high compression level. It succeeds on every input:
/// only writing the blob out can fail, and that lives with the caller.
pub fn serialize_font(
    bitmap: &Vec<u8>,
    width: u32,
    map16: &Vec<GlyphRec>,
    dict32: &Vec<DictEntry>,
) -> (out: Vec<u8>)
    ensures
        out@ == serialized_font(bitmap@, width, map16@, dict32@),
{
    let encoded = encode_font_bytes(bitmap, width, map16, dict32);
    compress_bytes(&encoded, COMPRESSION_LEVEL)
}

} // verus!

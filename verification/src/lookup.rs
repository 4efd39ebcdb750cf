use vstd::prelude::*;
use vstd::pervasive::VecAdditionalExecFns;
use crate::errors::AtlasError;
use crate::metrics::GlyphMetrics;

verus! {

/// One glyph record of the output format: top-left position in atlas pixel
/// space, the box size in unsigned bytes, and the signed-byte render offset
/// that shifts a quad drawn at the position so the ink lines up.
#[derive(Clone, Copy, Debug, PartialEq, Eq, Structural)]
pub struct GlyphRec {
    pub x: u32,
    pub y: u32,
    pub w: u8,
    pub h: u8,
    pub off_x: i8,
    pub off_y: i8,
}

/// The "not present" sentinel: a zero-sized glyph.
pub open spec fn zero_glyph() -> GlyphRec {
    GlyphRec { x: 0, y: 0, w: 0, h: 0, off_x: 0, off_y: 0 }
}

/// A value squeezed into the signed byte range.
pub open spec fn clamp_i8(v: int) -> int {
    if v < -128 {
        -128
    } else if v > 127 {
        127
    } else {
        v
    }
}

fn clamp_to_i8(v: i64) -> (r: i8)
    ensures
        r as int == clamp_i8(v as int),
{
    if v < -128 {
        -128
    } else if v > 127 {
        127
    } else {
        v as i8
    }
}

/// How a glyph record relates to its packed position `(x, y)`, its metrics
/// (padded size and ink offset) and the font size: the size is carried over
/// into bytes, and the render offset is `(-inkOffset.x, fontSize -
/// inkOffset.y)`, each clamped to the signed byte range.
pub open spec fn is_glyph_record(
    rec: GlyphRec,
    x: int,
    y: int,
    g: GlyphMetrics,
    font_size: int,
) -> bool {
    &&& rec.x == x
    &&& rec.y == y
    &&& rec.w == g.size.0
    &&& rec.h == g.size.1
    &&& rec.off_x == clamp_i8(-(g.offset.0 as int))
    &&& rec.off_y == clamp_i8(font_size - g.offset.1)
}

/// One flattened glyph: its sequence's UTF-16 code units and its record.
#[derive(Debug)]
pub struct GlyphEntry {
    pub seq: Vec<u16>,
    pub rec: GlyphRec,
}

pub open spec fn entries_model(es: Seq<GlyphEntry>) -> Seq<(Seq<u16>, GlyphRec)> {
    es.map(|i: int, e: GlyphEntry| (e.seq@, e.rec))
}

/// A glyph list can be encoded when no sequence is empty (it would have no
/// lookup key) and every padded box fits the record's unsigned byte fields.
pub open spec fn glyphs_encodable(ms: Seq<GlyphMetrics>) -> bool {
    forall|i: int|
        0 <= i < ms.len() ==> {
            &&& (#[trigger] ms[i]).seq@.len() > 0
            &&& ms[i].size.0 <= 255
            &&& ms[i].size.1 <= 255
        }
}

/// Zips the glyphs back together with their packed placements, building one
/// output record per glyph, in input order. Rejects (rather than silently
/// truncating) a glyph whose box cannot be represented in a byte, and a
/// sequence with no code units.
pub fn build_glyphs(chars: &Vec<GlyphMetrics>, offsets: &Vec<(u32, u32)>, font_size: i32) -> (r:
    Result<Vec<GlyphEntry>, AtlasError>)
    requires
        offsets@.len() == chars@.len(),
    ensures
        match r {
            Ok(es) => {
                &&& glyphs_encodable(chars@)
                &&& es@.len() == chars@.len()
                &&& forall|i: int|
                    0 <= i < es@.len() ==> (#[trigger] es@[i]).seq@ == chars@[i].seq@
                        && is_glyph_record(
                        es@[i].rec,
                        offsets@[i].0 as int,
                        offsets@[i].1 as int,
                        chars@[i],
                        font_size as int,
                    )
            },
            Err(e) => {
                &&& !glyphs_encodable(chars@)
                &&& (e == AtlasError::EmptySequence || e == AtlasError::OversizedGlyph)
                &&& (e == AtlasError::EmptySequence ==> exists|i: int|
                    0 <= i < chars@.len() && (#[trigger] chars@[i]).seq@.len() == 0)
                &&& (e == AtlasError::OversizedGlyph ==> exists|i: int|
                    0 <= i < chars@.len() && ((#[trigger] chars@[i]).size.0 > 255 || chars@[i].size.1
                        > 255))
            },
        },
{
    let mut out: Vec<GlyphEntry> = Vec::new();
    let mut i: usize = 0;
    while i < chars.len()
        invariant
            0 <= i <= chars@.len(),
            out@.len() == i,
            offsets@.len() == chars@.len(),
            forall|j: int|
                0 <= j < i ==> {
                    &&& (#[trigger] chars@[j]).seq@.len() > 0
                    &&& chars@[j].size.0 <= 255
                    &&& chars@[j].size.1 <= 255
                },
            forall|j: int|
                0 <= j < i ==> (#[trigger] out@[j]).seq@ == chars@[j].seq@ && is_glyph_record(
                    out@[j].rec,
                    offsets@[j].0 as int,
                    offsets@[j].1 as int,
                    chars@[j],
                    font_size as int,
                ),
        decreases chars@.len() - i,
    {
        let g = &chars[i];
        if g.seq.len() == 0 {
            proof {
                assert(chars@[i as int].seq@.len() == 0);
                assert(!glyphs_encodable(chars@));
            }
            return Err(AtlasError::EmptySequence);
        }
        if g.size.0 > 255 || g.size.1 > 255 {
            proof {
                assert(chars@[i as int].size.0 > 255 || chars@[i as int].size.1 > 255);
                assert(!glyphs_encodable(chars@));
            }
            return Err(AtlasError::OversizedGlyph);
        }
        let seq = g.seq.clone();
        proof {
            assert forall|j: int| 0 <= j < seq@.len() implies seq@[j] == chars@[i as int].seq@[j] by {
                assert(vstd::pervasive::cloned::<u16>(chars@[i as int].seq@[j], seq@[j]));
            }
            assert(seq@ =~= chars@[i as int].seq@);
        }
        let (x, y) = (offsets[i].0, offsets[i].1);
        let rec = GlyphRec {
            x,
            y,
            w: g.size.0 as u8,
            h: g.size.1 as u8,
            off_x: clamp_to_i8(-(g.offset.0 as i64)),
            off_y: clamp_to_i8((font_size as i64) - (g.offset.1 as i64)),
        };
        out.push(GlyphEntry { seq, rec });
        i = i + 1;
    }
    Ok(out)
}

/// A sequence is keyed in tier 1 when it has fewer than four code units; its
/// key is its first unit. Otherwise it is keyed in tier 2 by its first two
/// units.
pub open spec fn tier1_keyed(s: Seq<u16>) -> bool {
    1 <= s.len() < 4
}

pub open spec fn tier2_keyed(s: Seq<u16>) -> bool {
    s.len() >= 4
}

/// What the direct-indexed tier holds at index `k` after filing the entries
/// in order: the record of the last tier-1 entry whose first unit is `k`, or
/// the zero-sized sentinel.
pub open spec fn tier1_slot(entries: Seq<(Seq<u16>, GlyphRec)>, k: int) -> GlyphRec
    decreases entries.len(),
{
    if entries.len() == 0 {
        zero_glyph()
    } else {
        let last = entries.last();
        if last.0.len() < 4 && last.0[0] == k {
            last.1
        } else {
            tier1_slot(entries.drop_last(), k)
        }
    }
}

pub open spec fn tier1_occupied(entries: Seq<(Seq<u16>, GlyphRec)>, k: int) -> bool {
    exists|j: int|
        0 <= j < entries.len() && (#[trigger] entries[j]).0.len() < 4 && entries[j].0[0] == k
}

/// One tier-2 entry: the first two code units of the sequence and its record.
#[derive(Clone, Copy, Debug, PartialEq, Eq, Structural)]
pub struct DictEntry {
    pub k0: u16,
    pub k1: u16,
    pub rec: GlyphRec,
}

pub open spec fn key_lt(a0: u16, a1: u16, b0: u16, b1: u16) -> bool {
    a0 < b0 || (a0 == b0 && a1 < b1)
}

/// Number of leading entries whose key precedes `(k0, k1)`.
pub open spec fn dict_lb(d: Seq<DictEntry>, k0: u16, k1: u16) -> int
    decreases d.len(),
{
    if d.len() == 0 {
        0
    } else if key_lt(d[0].k0, d[0].k1, k0, k1) {
        1 + dict_lb(d.drop_first(), k0, k1)
    } else {
        0
    }
}

/// Ordered-map insertion: replace the entry with the same key, or splice the
/// new entry in at its ordered position.
pub open spec fn dict_insert(d: Seq<DictEntry>, e: DictEntry) -> Seq<DictEntry> {
    let j = dict_lb(d, e.k0, e.k1);
    if j < d.len() && d[j].k0 == e.k0 && d[j].k1 == e.k1 {
        d.update(j, e)
    } else {
        d.insert(j, e)
    }
}

/// The ordered tier-2 dictionary after filing the entries in order: every
/// sequence of four or more code units is inserted under its first two units,
/// later entries overwriting earlier ones with the same key.
pub open spec fn dict_entries(entries: Seq<(Seq<u16>, GlyphRec)>) -> Seq<DictEntry>
    decreases entries.len(),
{
    if entries.len() == 0 {
        Seq::empty()
    } else {
        let d = dict_entries(entries.drop_last());
        let last = entries.last();
        if last.0.len() >= 4 {
            dict_insert(d, DictEntry { k0: last.0[0], k1: last.0[1], rec: last.1 })
        } else {
            d
        }
    }
}

proof fn lemma_dict_lb_props(d: Seq<DictEntry>, k0: u16, k1: u16)
    ensures
        0 <= dict_lb(d, k0, k1) <= d.len(),
        forall|m: int|
            0 <= m < dict_lb(d, k0, k1) ==> key_lt((#[trigger] d[m]).k0, d[m].k1, k0, k1),
        dict_lb(d, k0, k1) < d.len() ==> !key_lt(d[dict_lb(d, k0, k1)].k0, d[dict_lb(d, k0, k1)].k1, k0, k1),
    decreases d.len(),
{
    if d.len() > 0 {
        lemma_dict_lb_props(d.drop_first(), k0, k1);
        if key_lt(d[0].k0, d[0].k1, k0, k1) {
            assert forall|m: int| 0 <= m < dict_lb(d, k0, k1) implies key_lt(
                (#[trigger] d[m]).k0,
                d[m].k1,
                k0,
                k1,
            ) by {
                if m > 0 {
                    assert(d[m] == d.drop_first()[m - 1]);
                }
            }
            if dict_lb(d, k0, k1) < d.len() {
                assert(d[dict_lb(d, k0, k1)] == d.drop_first()[dict_lb(d, k0, k1) - 1]);
            }
        }
    }
}

fn key_before(a: &DictEntry, k0: u16, k1: u16) -> (b: bool)
    ensures
        b == key_lt(a.k0, a.k1, k0, k1),
{
    a.k0 < k0 || (a.k0 == k0 && a.k1 < k1)
}

/// The Lookup Encoder: files every flattened glyph into one of the two
/// lookup tiers. A sequence of fewer than four code units goes into the
/// direct-indexed table at its first code unit (later entries overwrite
/// earlier ones in the same slot); a longer sequence goes into the ordered
/// dictionary keyed by its first two code units.
pub fn encode_lookup(entries: &Vec<GlyphEntry>) -> (r: (Vec<GlyphRec>, Vec<DictEntry>))
    requires
        forall|i: int| 0 <= i < entries@.len() ==> (#[trigger] entries@[i]).seq@.len() > 0,
    ensures
        r.0@.len() == 65536,
        forall|k: int| 0 <= k < 65536 ==> r.0@[k] == tier1_slot(entries_model(entries@), k),
        r.1@ == dict_entries(entries_model(entries@)),
{
    let ghost em = entries_model(entries@);
    let mut map16: Vec<GlyphRec> = Vec::new();
    let mut n: usize = 0;
    while n < 65536
        invariant
            map16@.len() == n <= 65536,
            forall|k: int| 0 <= k < n ==> map16@[k] == zero_glyph(),
        decreases 65536 - n,
    {
        map16.push(GlyphRec { x: 0, y: 0, w: 0, h: 0, off_x: 0, off_y: 0 });
        n = n + 1;
    }
    let mut dict: Vec<DictEntry> = Vec::new();
    let mut i: usize = 0;
    proof {
        assert(em.take(0) =~= Seq::<(Seq<u16>, GlyphRec)>::empty());
    }
    while i < entries.len()
        invariant
            0 <= i <= entries@.len(),
            em == entries_model(entries@),
            em.len() == entries@.len(),
            forall|j: int| 0 <= j < em.len() ==> (#[trigger] em[j]).0.len() > 0,
            map16@.len() == 65536,
            forall|k: int| 0 <= k < 65536 ==> map16@[k] == tier1_slot(em.take(i as int), k),
            dict@ == dict_entries(em.take(i as int)),
        decreases entries@.len() - i,
    {
        let ghost taken = em.take(i as int);
        let ghost taken1 = em.take(i as int + 1);
        proof {
            assert(taken1.drop_last() =~= taken);
            assert(taken1.last() == em[i as int]);
            assert(em[i as int] == (entries@[i as int].seq@, entries@[i as int].rec));
        }
        let e = &entries[i];
        let u0 = e.seq[0];
        if e.seq.len() < 4 {
            map16.set(u0 as usize, e.rec);
            proof {
                assert forall|k: int| 0 <= k < 65536 implies map16@[k] == tier1_slot(taken1, k) by {
                    if k == u0 as int {
                        assert(tier1_slot(taken1, k) == em[i as int].1);
                    } else {
                        assert(tier1_slot(taken1, k) == tier1_slot(taken, k));
                    }
                }
                assert(dict_entries(taken1) == dict_entries(taken));
            }
        } else {
            let u1 = e.seq[1];
            let mut j: usize = 0;
            while j < dict.len() && key_before(&dict[j], u0, u1)
                invariant
                    0 <= j <= dict@.len(),
                    forall|m: int|
                        0 <= m < j ==> key_lt((#[trigger] dict@[m]).k0, dict@[m].k1, u0, u1),
                decreases dict@.len() - j,
            {
                j = j + 1;
            }
            proof {
                lemma_dict_lb_props(dict@, u0, u1);
                let lb = dict_lb(dict@, u0, u1);
                if j < lb {
                    assert(key_lt(dict@[j as int].k0, dict@[j as int].k1, u0, u1));
                    assert(false);
                }
                if j > lb {
                    assert(key_lt(dict@[lb].k0, dict@[lb].k1, u0, u1));
                    assert(false);
                }
            }
            let new_entry = DictEntry { k0: u0, k1: u1, rec: e.rec };
            if j < dict.len() && dict[j].k0 == u0 && dict[j].k1 == u1 {
                dict.set(j, new_entry);
            } else {
                dict.insert(j, new_entry);
            }
            proof {
                assert(dict@ == dict_insert(dict_entries(taken), new_entry));
                assert(dict_entries(taken1) == dict_insert(
                    dict_entries(taken),
                    DictEntry { k0: em[i as int].0[0], k1: em[i as int].0[1], rec: em[i as int].1 },
                ));
                assert(new_entry == DictEntry {
                    k0: em[i as int].0[0],
                    k1: em[i as int].0[1],
                    rec: em[i as int].1,
                });
                assert forall|k: int| 0 <= k < 65536 implies map16@[k] == tier1_slot(taken1, k) by {
                    assert(tier1_slot(taken1, k) == tier1_slot(taken, k));
                }
            }
        }
        i = i + 1;
    }
    proof {
        assert(em.take(em.len() as int) =~= em);
    }
    (map16, dict)
}

/// The tier-2 dictionary is strictly ordered by its two-unit key.
pub open spec fn dict_sorted(d: Seq<DictEntry>) -> bool {
    forall|a: int, b: int|
        0 <= a < b < d.len() ==> key_lt(
            (#[trigger] d[a]).k0,
            d[a].k1,
            (#[trigger] d[b]).k0,
            d[b].k1,
        )
}

proof fn lemma_dict_insert_sorted(d: Seq<DictEntry>, e: DictEntry)
    requires
        dict_sorted(d),
    ensures
        dict_sorted(dict_insert(d, e)),
{
    lemma_dict_lb_props(d, e.k0, e.k1);
    let j = dict_lb(d, e.k0, e.k1);
    let d1 = dict_insert(d, e);
    if j < d.len() && d[j].k0 == e.k0 && d[j].k1 == e.k1 {
        assert forall|a: int, b: int| 0 <= a < b < d1.len() implies key_lt(
            (#[trigger] d1[a]).k0,
            d1[a].k1,
            (#[trigger] d1[b]).k0,
            d1[b].k1,
        ) by {
            assert(key_lt(d[a].k0, d[a].k1, d[b].k0, d[b].k1));
        }
    } else {
        assert(d1 == d.insert(j, e));
        assert forall|a: int, b: int| 0 <= a < b < d1.len() implies key_lt(
            (#[trigger] d1[a]).k0,
            d1[a].k1,
            (#[trigger] d1[b]).k0,
            d1[b].k1,
        ) by {
            if a < j {
                assert(d1[a] == d[a]);
            } else if a == j {
                assert(d1[a] == e);
            } else {
                assert(d1[a] == d[a - 1]);
            }
            if b < j {
                assert(d1[b] == d[b]);
            } else if b == j {
                assert(d1[b] == e);
            } else {
                assert(d1[b] == d[b - 1]);
            }
            // Entries before the insertion point precede the new key; the
            // first entry at or past it does not, and its key differs, so
            // the new key precedes it and, by order, all later ones.
            if b == j && a < j {
                assert(key_lt(d[a].k0, d[a].k1, e.k0, e.k1));
            }
            if a == j && b > j {
                assert(!key_lt(d[j as int].k0, d[j as int].k1, e.k0, e.k1) ==> key_lt(
                    e.k0,
                    e.k1,
                    d[j as int].k0,
                    d[j as int].k1,
                ));
                if b - 1 > j {
                    assert(key_lt(d[j as int].k0, d[j as int].k1, d[b - 1].k0, d[b - 1].k1));
                }
            }
        }
    }
}

/// The tier-2 dictionary the encoder builds is strictly sorted by key, so
/// its serialization is deterministic.
pub proof fn lemma_dict_entries_sorted(entries: Seq<(Seq<u16>, GlyphRec)>)
    ensures
        dict_sorted(dict_entries(entries)),
    decreases entries.len(),
{
    if entries.len() > 0 {
        lemma_dict_entries_sorted(entries.drop_last());
        let last = entries.last();
        if last.0.len() >= 4 {
            lemma_dict_insert_sorted(
                dict_entries(entries.drop_last()),
                DictEntry { k0: last.0[0], k1: last.0[1], rec: last.1 },
            );
        }
    }
}

pub open spec fn dict_has_key(d: Seq<DictEntry>, k0: u16, k1: u16) -> bool {
    exists|j: int| 0 <= j < d.len() && (#[trigger] d[j]).k0 == k0 && d[j].k1 == k1
}

proof fn lemma_dict_insert_keys(d: Seq<DictEntry>, e: DictEntry)
    ensures
        dict_has_key(dict_insert(d, e), e.k0, e.k1),
        forall|k0: u16, k1: u16|
            dict_has_key(d, k0, k1) ==> #[trigger] dict_has_key(dict_insert(d, e), k0, k1),
{
    lemma_dict_lb_props(d, e.k0, e.k1);
    let j = dict_lb(d, e.k0, e.k1);
    let d1 = dict_insert(d, e);
    if j < d.len() && d[j].k0 == e.k0 && d[j].k1 == e.k1 {
        assert(d1[j] == e);
        assert forall|k0: u16, k1: u16| dict_has_key(d, k0, k1) implies #[trigger] dict_has_key(
            d1,
            k0,
            k1,
        ) by {
            let m = choose|m: int| 0 <= m < d.len() && (#[trigger] d[m]).k0 == k0 && d[m].k1 == k1;
            if m == j {
                assert(d1[j].k0 == k0 && d1[j].k1 == k1);
            } else {
                assert(d1[m] == d[m]);
            }
        }
    } else {
        assert(d1 == d.insert(j, e));
        assert(d1[j] == e);
        assert forall|k0: u16, k1: u16| dict_has_key(d, k0, k1) implies #[trigger] dict_has_key(
            d1,
            k0,
            k1,
        ) by {
            let m = choose|m: int| 0 <= m < d.len() && (#[trigger] d[m]).k0 == k0 && d[m].k1 == k1;
            if m < j {
                assert(d1[m] == d[m]);
            } else {
                assert(d1[m + 1] == d[m]);
            }
        }
    }
}

/// Every input sequence is filed in exactly one of the two lookup tiers,
/// never both and never neither: a sequence of fewer than four code units is
/// keyed in tier 1 only, where its slot is occupied; a longer sequence is
/// keyed in tier 2 only, where its two-unit key is present.
pub proof fn lemma_exactly_one_tier(entries: Seq<(Seq<u16>, GlyphRec)>, i: int)
    requires
        0 <= i < entries.len(),
        forall|j: int| 0 <= j < entries.len() ==> (#[trigger] entries[j]).0.len() > 0,
    ensures
        tier1_keyed(entries[i].0) != tier2_keyed(entries[i].0),
        tier1_keyed(entries[i].0) ==> tier1_occupied(entries, entries[i].0[0] as int),
        tier2_keyed(entries[i].0) ==> dict_has_key(
            dict_entries(entries),
            entries[i].0[0],
            entries[i].0[1],
        ),
    decreases entries.len(),
{
    if tier2_keyed(entries[i].0) {
        let last = entries.last();
        if i == entries.len() - 1 {
            lemma_dict_insert_keys(
                dict_entries(entries.drop_last()),
                DictEntry { k0: last.0[0], k1: last.0[1], rec: last.1 },
            );
        } else {
            assert(entries.drop_last()[i] == entries[i]);
            lemma_exactly_one_tier(entries.drop_last(), i);
            if last.0.len() >= 4 {
                lemma_dict_insert_keys(
                    dict_entries(entries.drop_last()),
                    DictEntry { k0: last.0[0], k1: last.0[1], rec: last.1 },
                );
            }
        }
    }
}

/// Tier-1 retrieval: a sequence of fewer than four code units whose first
/// unit no later tier-1 sequence shares is retrieved from tier 1 at the
/// index of that unit.
pub proof fn lemma_tier1_retrieval(entries: Seq<(Seq<u16>, GlyphRec)>, i: int)
    requires
        0 <= i < entries.len(),
        forall|j: int| 0 <= j < entries.len() ==> (#[trigger] entries[j]).0.len() > 0,
        tier1_keyed(entries[i].0),
        forall|j: int|
            i < j < entries.len() ==> !(tier1_keyed((#[trigger] entries[j]).0) && entries[j].0[0]
                == entries[i].0[0]),
    ensures
        tier1_slot(entries, entries[i].0[0] as int) == entries[i].1,
    decreases entries.len(),
{
    if i == entries.len() - 1 {
        assert(entries.last() == entries[i]);
    } else {
        let prefix = entries.drop_last();
        assert forall|j: int| 0 <= j < prefix.len() implies (#[trigger] prefix[j]).0.len() > 0 by {
            assert(prefix[j] == entries[j]);
        }
        assert forall|j: int|
            i < j < prefix.len() implies !(tier1_keyed((#[trigger] prefix[j]).0) && prefix[j].0[0]
            == prefix[i as int].0[0]) by {
            assert(prefix[j] == entries[j]);
            assert(prefix[i as int] == entries[i]);
        }
        lemma_tier1_retrieval(prefix, i);
        let last = entries.last();
        assert(last == entries[entries.len() - 1]);
        assert(entries[entries.len() - 1].0.len() > 0);
        assert(!(tier1_keyed(last.0) && last.0[0] == entries[i].0[0]));
    }
}

/// A "not present" slot holds the zero-sized sentinel: if no tier-1 sequence
/// is keyed at `k`, tier 1 reads back the zero-sized glyph there.
pub proof fn lemma_tier1_sentinel(entries: Seq<(Seq<u16>, GlyphRec)>, k: int)
    requires
        !tier1_occupied(entries, k),
    ensures
        tier1_slot(entries, k) == zero_glyph(),
    decreases entries.len(),
{
    if entries.len() > 0 {
        assert forall|j: int|
            !(0 <= j < entries.drop_last().len() && (#[trigger] entries.drop_last()[j]).0.len() < 4
                && entries.drop_last()[j].0[0] == k) by {
            if 0 <= j < entries.len() - 1 {
                assert(entries.drop_last()[j] == entries[j]);
            }
        }
        lemma_tier1_sentinel(entries.drop_last(), k);
    }
}

} // verus!

//! The mathematical model of the transcoding pipeline: decoding UTF-16 and
//! UTF-32 byte streams into Unicode scalar values, and re-encoding scalar
//! values as UTF-8.
//!
//! Scalar values are modelled as `u32` code points; the executable decoders
//! yield `char` values whose code points match this model.

use vstd::prelude::*;

verus! {

/// An invalid or unexpected code unit in a UTF-16 or UTF-32 stream.
///
/// `unit` is the offending code unit's raw value and `pos` the byte offset at
/// which it starts, counted from the first byte the decoder consumed.
/// `UnexpectedEnd` reports a stream that ends in the middle of a code unit,
/// or right after a leading surrogate.
#[derive(Clone, Copy, Debug, PartialEq, Eq, Structural)]
#[allow(inconsistent_fields)]
pub enum TranscodeError {
    InvalidUtf16 { unit: u16, pos: u64 },
    InvalidUtf32 { unit: u32, pos: u64 },
    UnexpectedEnd,
}

/// One outcome of pulling a decoder: a Unicode scalar value or a positioned
/// error.
pub enum DecodeItem {
    Scalar(u32),
    Failure(TranscodeError),
}

/// Whether `v` is a Unicode scalar value: a code point outside the surrogate
/// range and no greater than U+10FFFF.
pub open spec fn is_unicode_scalar(v: u32) -> bool {
    v <= 0x10FFFF && !(0xD800 <= v && v <= 0xDFFF)
}

/// The Unicode scalar value of the byte order mark, U+FEFF.
pub open spec fn bom_scalar() -> u32 {
    0xFEFF
}

/// The 16-bit code unit stored in two bytes, big- or little-endian.
pub open spec fn merge_u16(b0: u8, b1: u8, big: bool) -> u16 {
    if big {
        (b0 as int * 0x100 + b1 as int) as u16
    } else {
        (b1 as int * 0x100 + b0 as int) as u16
    }
}

/// The 32-bit code unit stored in four bytes, big- or little-endian.
pub open spec fn merge_u32(b0: u8, b1: u8, b2: u8, b3: u8, big: bool) -> u32 {
    if big {
        (b0 as int * 0x1000000 + b1 as int * 0x10000 + b2 as int * 0x100 + b3 as int) as u32
    } else {
        (b3 as int * 0x1000000 + b2 as int * 0x10000 + b1 as int * 0x100 + b0 as int) as u32
    }
}

/// Whether `u` is a UTF-16 surrogate code unit.
pub open spec fn utf16_is_surrogate(u: u16) -> bool {
    0xD800 <= u && u <= 0xDFFF
}

/// Whether `u` is a UTF-16 trailing (low) surrogate.
pub open spec fn utf16_is_trail(u: u16) -> bool {
    0xDC00 <= u && u <= 0xDFFF
}

/// The scalar value encoded by a valid surrogate pair.
pub open spec fn combine_surrogates(lead: u16, trail: u16) -> u32 {
    (0x10000 + (lead as int - 0xD800) * 0x400 + (trail as int - 0xDC00)) as u32
}

/// The sequence of scalar values and errors that UTF-16 decoding yields on
/// the remaining bytes `s`, with `pos` the byte offset of `s[0]` and
/// `pending` a code unit already consumed but not yet decoded (the candidate
/// leading unit retained after an invalid trailing unit).
pub open spec fn utf16_items(s: Seq<u8>, big: bool, pos: int, pending: Option<u16>) -> Seq<
    DecodeItem,
>
    decreases s.len() + if pending is Some {
        1int
    } else {
        0int
    },
{
    match pending {
        Some(u) => {
            if !utf16_is_surrogate(u) {
                seq![DecodeItem::Scalar(u as u32)] + utf16_items(s, big, pos, None)
            } else if utf16_is_trail(u) {
                // unreachable: a retained unit is never a trailing surrogate
                seq![DecodeItem::Failure(TranscodeError::InvalidUtf16 { unit: u, pos: pos as u64 })]
                    + utf16_items(s, big, pos, None)
            } else {
                // a leading surrogate awaits its trailing unit
                if s.len() < 2 {
                    seq![DecodeItem::Failure(TranscodeError::UnexpectedEnd)]
                } else {
                    let t = merge_u16(s[0], s[1], big);
                    if utf16_is_trail(t) {
                        seq![DecodeItem::Scalar(combine_surrogates(u, t))] + utf16_items(
                            s.skip(2),
                            big,
                            pos + 2,
                            None,
                        )
                    } else {
                        seq![
                            DecodeItem::Failure(
                                TranscodeError::InvalidUtf16 { unit: t, pos: pos as u64 },
                            ),
                        ] + utf16_items(s.skip(2), big, pos + 2, Some(t))
                    }
                }
            }
        },
        None => {
            if s.len() == 0 {
                seq![]
            } else if s.len() == 1 {
                seq![DecodeItem::Failure(TranscodeError::UnexpectedEnd)]
            } else {
                let u = merge_u16(s[0], s[1], big);
                if !utf16_is_surrogate(u) {
                    seq![DecodeItem::Scalar(u as u32)] + utf16_items(s.skip(2), big, pos + 2, None)
                } else if utf16_is_trail(u) {
                    seq![
                        DecodeItem::Failure(TranscodeError::InvalidUtf16 { unit: u, pos: pos as u64 }),
                    ] + utf16_items(s.skip(2), big, pos + 2, None)
                } else {
                    utf16_items(s.skip(2), big, pos + 2, Some(u))
                }
            }
        },
    }
}

/// The sequence of scalar values and errors that UTF-32 decoding yields on
/// the remaining bytes `s`, with `pos` the byte offset of `s[0]`.
pub open spec fn utf32_items(s: Seq<u8>, big: bool, pos: int) -> Seq<DecodeItem>
    decreases s.len(),
{
    if s.len() == 0 {
        seq![]
    } else if s.len() < 4 {
        seq![DecodeItem::Failure(TranscodeError::UnexpectedEnd)]
    } else {
        let u = merge_u32(s[0], s[1], s[2], s[3], big);
        if is_unicode_scalar(u) {
            seq![DecodeItem::Scalar(u)] + utf32_items(s.skip(4), big, pos + 4)
        } else {
            seq![DecodeItem::Failure(TranscodeError::InvalidUtf32 { unit: u, pos: pos as u64 })]
                + utf32_items(s.skip(4), big, pos + 4)
        }
    }
}

/// The scalar values yielded before the first error.
pub open spec fn scalars_prefix(items: Seq<DecodeItem>) -> Seq<u32>
    decreases items.len(),
{
    if items.len() == 0 {
        seq![]
    } else {
        match items[0] {
            DecodeItem::Scalar(v) => seq![v] + scalars_prefix(items.skip(1)),
            DecodeItem::Failure(_) => seq![],
        }
    }
}

/// The first error in the item sequence, if any.
pub open spec fn first_failure(items: Seq<DecodeItem>) -> Option<TranscodeError>
    decreases items.len(),
{
    if items.len() == 0 {
        None
    } else {
        match items[0] {
            DecodeItem::Scalar(_) => first_failure(items.skip(1)),
            DecodeItem::Failure(e) => Some(e),
        }
    }
}

/// Consuming a leading scalar value shortens the scalar prefix by one and
/// leaves the first error unchanged.
pub proof fn lemma_items_step_scalar(items: Seq<DecodeItem>, v: u32)
    requires
        items.len() > 0,
        items[0] == DecodeItem::Scalar(v),
    ensures
        scalars_prefix(items) == seq![v] + scalars_prefix(items.skip(1)),
        scalars_prefix(items).len() > 0,
        scalars_prefix(items)[0] == v,
        scalars_prefix(items).skip(1) == scalars_prefix(items.skip(1)),
        first_failure(items) == first_failure(items.skip(1)),
{
    assert(scalars_prefix(items).skip(1) =~= scalars_prefix(items.skip(1)));
}

/// An error at the front of the item sequence empties the scalar prefix and
/// is the first error.
pub proof fn lemma_items_step_failure(items: Seq<DecodeItem>, e: TranscodeError)
    requires
        items.len() > 0,
        items[0] == DecodeItem::Failure(e),
    ensures
        scalars_prefix(items) == Seq::<u32>::empty(),
        first_failure(items) == Some(e),
{
}

/// An empty item sequence has no scalar values and no error.
pub proof fn lemma_items_empty(items: Seq<DecodeItem>)
    requires
        items.len() == 0,
    ensures
        scalars_prefix(items) == Seq::<u32>::empty(),
        first_failure(items) is None,
{
}

/// Removes one leading byte order mark scalar, if present.
pub open spec fn strip_bom(sc: Seq<u32>) -> Seq<u32> {
    if sc.len() > 0 && sc[0] == bom_scalar() {
        sc.skip(1)
    } else {
        sc
    }
}

/// The UTF-8 encoding of one scalar value.
pub open spec fn utf8_encode_scalar(v: u32) -> Seq<u8>
    recommends
        is_unicode_scalar(v),
{
    if v < 0x80 {
        seq![v as u8]
    } else if v < 0x800 {
        seq![(0xC0 + v / 0x40) as u8, (0x80 + v % 0x40) as u8]
    } else if v < 0x10000 {
        seq![
            (0xE0 + v / 0x1000) as u8,
            (0x80 + (v / 0x40) % 0x40) as u8,
            (0x80 + v % 0x40) as u8,
        ]
    } else {
        seq![
            (0xF0 + v / 0x40000) as u8,
            (0x80 + (v / 0x1000) % 0x40) as u8,
            (0x80 + (v / 0x40) % 0x40) as u8,
            (0x80 + v % 0x40) as u8,
        ]
    }
}

/// The UTF-8 encoding of a sequence of scalar values.
pub open spec fn utf8_encode_all(sc: Seq<u32>) -> Seq<u8>
    decreases sc.len(),
{
    if sc.len() == 0 {
        seq![]
    } else {
        utf8_encode_scalar(sc[0]) + utf8_encode_all(sc.skip(1))
    }
}

/// Whether the byte stream opens with the UTF-8 encoding of a byte order
/// mark: exactly the three bytes EF BB BF.
pub open spec fn starts_with_utf8_bom(s: Seq<u8>) -> bool {
    s.len() >= 3 && s[0] == 0xEF && s[1] == 0xBB && s[2] == 0xBF
}

/// The byte stream with one leading UTF-8-encoded byte order mark removed,
/// if present.
pub open spec fn strip_utf8_bom(s: Seq<u8>) -> Seq<u8> {
    if starts_with_utf8_bom(s) {
        s.skip(3)
    } else {
        s
    }
}

/// The UTF-8 encoding of the byte order mark scalar is EF BB BF.
pub proof fn lemma_utf8_bom_bytes()
    ensures
        utf8_encode_scalar(bom_scalar()) == seq![0xEFu8, 0xBBu8, 0xBFu8],
{
    vstd::arithmetic::div_mod::lemma_fundamental_div_mod_converse(0xFEFF, 0x1000, 0xF, 0xEFF);
    vstd::arithmetic::div_mod::lemma_fundamental_div_mod_converse(0xFEFF, 0x40, 0x3FB, 0x3F);
    vstd::arithmetic::div_mod::lemma_fundamental_div_mod_converse(0x3FB, 0x40, 0xF, 0x3B);
    assert(utf8_encode_scalar(bom_scalar()) =~= seq![0xEFu8, 0xBBu8, 0xBFu8]);
}

/// Only the byte order mark itself puts the bytes EF BB BF at the front of
/// an encoded scalar sequence, so stripping that byte prefix agrees with
/// stripping a leading U+FEFF scalar.
pub proof fn lemma_strip_utf8_bom_encoded(sc: Seq<u32>)
    requires
        all_unicode_scalars(sc),
    ensures
        starts_with_utf8_bom(utf8_encode_all(sc)) <==> (sc.len() > 0 && sc[0] == bom_scalar()),
        strip_utf8_bom(utf8_encode_all(sc)) == utf8_encode_all(strip_bom(sc)),
{
    let bytes = utf8_encode_all(sc);
    if sc.len() == 0 {
        assert(!starts_with_utf8_bom(bytes));
    } else {
        let v = sc[0];
        assert(is_unicode_scalar(v));
        let head = utf8_encode_scalar(v);
        assert(bytes == head + utf8_encode_all(sc.skip(1)));
        if v == bom_scalar() {
            lemma_utf8_bom_bytes();
            assert(starts_with_utf8_bom(bytes));
            assert(bytes.skip(3) =~= utf8_encode_all(sc.skip(1)));
        } else {
            if v < 0x80 {
                assert(bytes[0] == v as u8);
                assert(bytes[0] != 0xEF);
            } else if v < 0x800 {
                vstd::arithmetic::div_mod::lemma_fundamental_div_mod(v as int, 0x40);
                assert(v as int / 0x40 < 0x20);
                assert(bytes[0] == (0xC0 + v as int / 0x40) as u8);
                assert(bytes[0] != 0xEF);
            } else if v < 0x10000 {
                // a three-byte encoding: the bytes EF BB BF pin the scalar
                // down to U+FEFF, which this branch excludes
                vstd::arithmetic::div_mod::lemma_fundamental_div_mod(v as int, 0x40);
                vstd::arithmetic::div_mod::lemma_fundamental_div_mod(v as int / 0x40, 0x40);
                vstd::arithmetic::div_mod::lemma_div_denominator(v as int, 0x40, 0x40);
                vstd::arithmetic::div_mod::lemma_fundamental_div_mod(v as int, 0x1000);
                assert(v as int / 0x1000 < 0x10);
                assert(bytes[0] == (0xE0 + v as int / 0x1000) as u8);
                assert(bytes[1] == (0x80 + (v as int / 0x40) % 0x40) as u8);
                assert(bytes[2] == (0x80 + v as int % 0x40) as u8);
                if bytes[0] == 0xEF && bytes[1] == 0xBB && bytes[2] == 0xBF {
                    assert(v as int / 0x1000 == 0xF);
                    assert((v as int / 0x40) % 0x40 == 0x3B);
                    assert(v as int % 0x40 == 0x3F);
                    assert(v as int == 0xFEFF);
                    assert(false);
                }
            } else {
                vstd::arithmetic::div_mod::lemma_fundamental_div_mod(v as int, 0x40000);
                assert(v as int / 0x40000 <= 4);
                assert(bytes[0] == (0xF0 + v as int / 0x40000) as u8);
                assert(bytes[0] != 0xEF);
            }
            assert(!starts_with_utf8_bom(bytes));
        }
    }
}

/// The two bytes that store a 16-bit code unit, big- or little-endian.
pub open spec fn split_u16(u: u16, big: bool) -> Seq<u8> {
    if big {
        seq![(u as int / 0x100) as u8, (u as int % 0x100) as u8]
    } else {
        seq![(u as int % 0x100) as u8, (u as int / 0x100) as u8]
    }
}

/// The four bytes that store a 32-bit code unit, big- or little-endian.
pub open spec fn split_u32(u: u32, big: bool) -> Seq<u8> {
    if big {
        seq![
            (u as int / 0x1000000) as u8,
            ((u as int / 0x10000) % 0x100) as u8,
            ((u as int / 0x100) % 0x100) as u8,
            (u as int % 0x100) as u8,
        ]
    } else {
        seq![
            (u as int % 0x100) as u8,
            ((u as int / 0x100) % 0x100) as u8,
            ((u as int / 0x10000) % 0x100) as u8,
            (u as int / 0x1000000) as u8,
        ]
    }
}

/// The UTF-16 encoding of one scalar value: one code unit for the basic
/// plane, a surrogate pair above it.
pub open spec fn utf16_encode_scalar(v: u32, big: bool) -> Seq<u8>
    recommends
        is_unicode_scalar(v),
{
    if v < 0x10000 {
        split_u16(v as u16, big)
    } else {
        split_u16((0xD800 + (v as int - 0x10000) / 0x400) as u16, big) + split_u16(
            (0xDC00 + (v as int - 0x10000) % 0x400) as u16,
            big,
        )
    }
}

/// The UTF-16 encoding of a sequence of scalar values.
pub open spec fn utf16_encode_all(sc: Seq<u32>, big: bool) -> Seq<u8>
    decreases sc.len(),
{
    if sc.len() == 0 {
        seq![]
    } else {
        utf16_encode_scalar(sc[0], big) + utf16_encode_all(sc.skip(1), big)
    }
}

/// The UTF-32 encoding of a sequence of scalar values.
pub open spec fn utf32_encode_all(sc: Seq<u32>, big: bool) -> Seq<u8>
    decreases sc.len(),
{
    if sc.len() == 0 {
        seq![]
    } else {
        split_u32(sc[0], big) + utf32_encode_all(sc.skip(1), big)
    }
}

/// Whether every value in `sc` is a Unicode scalar value.
pub open spec fn all_unicode_scalars(sc: Seq<u32>) -> bool {
    forall|i: int| 0 <= i < sc.len() ==> is_unicode_scalar(#[trigger] sc[i])
}

/// Whether every scalar item in the sequence carries a Unicode scalar value.
pub open spec fn items_scalars_valid(items: Seq<DecodeItem>) -> bool {
    forall|i: int|
        0 <= i < items.len() ==> (#[trigger] items[i] matches DecodeItem::Scalar(v)
            ==> is_unicode_scalar(v))
}

/// UTF-16 decoding yields only Unicode scalar values: a surrogate code unit
/// either pairs up into a supplementary scalar value or becomes an error.
pub proof fn lemma_utf16_items_valid(s: Seq<u8>, big: bool, pos: int, pending: Option<u16>)
    ensures
        items_scalars_valid(utf16_items(s, big, pos, pending)),
    decreases s.len() + if pending is Some {
        1int
    } else {
        0int
    },
{
    let items = utf16_items(s, big, pos, pending);
    match pending {
        Some(u) => {
            if !utf16_is_surrogate(u) {
                lemma_utf16_items_valid(s, big, pos, None);
            } else if utf16_is_trail(u) {
                lemma_utf16_items_valid(s, big, pos, None);
            } else if s.len() >= 2 {
                let t = merge_u16(s[0], s[1], big);
                if utf16_is_trail(t) {
                    assert(is_unicode_scalar(combine_surrogates(u, t)));
                    lemma_utf16_items_valid(s.skip(2), big, pos + 2, None);
                } else {
                    lemma_utf16_items_valid(s.skip(2), big, pos + 2, Some(t));
                }
            }
        },
        None => {
            if s.len() >= 2 {
                let u = merge_u16(s[0], s[1], big);
                if !utf16_is_surrogate(u) {
                    lemma_utf16_items_valid(s.skip(2), big, pos + 2, None);
                } else if utf16_is_trail(u) {
                    lemma_utf16_items_valid(s.skip(2), big, pos + 2, None);
                } else {
                    lemma_utf16_items_valid(s.skip(2), big, pos + 2, Some(u));
                }
            }
        },
    }
}

/// UTF-32 decoding yields only Unicode scalar values: any other code unit
/// becomes an error.
pub proof fn lemma_utf32_items_valid(s: Seq<u8>, big: bool, pos: int)
    ensures
        items_scalars_valid(utf32_items(s, big, pos)),
    decreases s.len(),
{
    if s.len() >= 4 {
        lemma_utf32_items_valid(s.skip(4), big, pos + 4);
    }
}

/// The scalar prefix of a sequence of valid items holds only Unicode scalar
/// values.
pub proof fn lemma_scalars_prefix_valid(items: Seq<DecodeItem>)
    requires
        items_scalars_valid(items),
    ensures
        all_unicode_scalars(scalars_prefix(items)),
    decreases items.len(),
{
    if items.len() > 0 {
        match items[0] {
            DecodeItem::Scalar(v) => {
                lemma_scalars_prefix_valid(items.skip(1));
                lemma_items_step_scalar(items, v);
            },
            DecodeItem::Failure(_) => {},
        }
    }
}

/// Removing a leading byte order mark keeps every value a Unicode scalar
/// value.
pub proof fn lemma_strip_bom_valid(sc: Seq<u32>)
    requires
        all_unicode_scalars(sc),
    ensures
        all_unicode_scalars(strip_bom(sc)),
{
}

/// Splitting a 16-bit code unit into two bytes and merging them again gives
/// the unit back.
pub proof fn lemma_merge_split_u16(u: u16, big: bool)
    ensures
        merge_u16(split_u16(u, big)[0], split_u16(u, big)[1], big) == u,
{
    vstd::arithmetic::div_mod::lemma_fundamental_div_mod(u as int, 0x100);
}

/// Splitting a 32-bit code unit into four bytes and merging them again gives
/// the unit back.
pub proof fn lemma_merge_split_u32(u: u32, big: bool)
    ensures
        merge_u32(
            split_u32(u, big)[0],
            split_u32(u, big)[1],
            split_u32(u, big)[2],
            split_u32(u, big)[3],
            big,
        ) == u,
{
    let x = u as int;
    vstd::arithmetic::div_mod::lemma_fundamental_div_mod(x, 0x100);
    vstd::arithmetic::div_mod::lemma_fundamental_div_mod(x / 0x100, 0x100);
    vstd::arithmetic::div_mod::lemma_fundamental_div_mod(x / 0x10000, 0x100);
    vstd::arithmetic::div_mod::lemma_div_denominator(x, 0x100, 0x100);
    vstd::arithmetic::div_mod::lemma_div_denominator(x, 0x10000, 0x100);
}

/// The scalar prefix of an all-scalar item sequence is the whole sequence,
/// and it holds no error.
pub proof fn lemma_prefix_all_scalars(sc: Seq<u32>)
    ensures
        scalars_prefix(sc.map_values(|v: u32| DecodeItem::Scalar(v))) == sc,
        first_failure(sc.map_values(|v: u32| DecodeItem::Scalar(v))) is None,
    decreases sc.len(),
{
    let items = sc.map_values(|v: u32| DecodeItem::Scalar(v));
    if sc.len() == 0 {
        assert(scalars_prefix(items) =~= sc);
    } else {
        lemma_prefix_all_scalars(sc.skip(1));
        assert(items.skip(1) =~= sc.skip(1).map_values(|v: u32| DecodeItem::Scalar(v)));
        assert(scalars_prefix(items) =~= sc);
    }
}

/// Decoding the UTF-16 encoding of valid scalar values yields exactly those
/// scalar values, with no error.
pub proof fn lemma_utf16_roundtrip_items(sc: Seq<u32>, big: bool, pos: int)
    requires
        forall|i: int| 0 <= i < sc.len() ==> is_unicode_scalar(#[trigger] sc[i]),
    ensures
        utf16_items(utf16_encode_all(sc, big), big, pos, None) == sc.map_values(
            |v: u32| DecodeItem::Scalar(v),
        ),
    decreases sc.len(),
{
    let bytes = utf16_encode_all(sc, big);
    let items = utf16_items(bytes, big, pos, None);
    let mapped = sc.map_values(|v: u32| DecodeItem::Scalar(v));
    if sc.len() == 0 {
        assert(items =~= mapped);
    } else {
        let v = sc[0];
        assert(is_unicode_scalar(v));
        let rest = utf16_encode_all(sc.skip(1), big);
        lemma_utf16_roundtrip_items(sc.skip(1), big, pos + utf16_encode_scalar(v, big).len());
        if v < 0x10000 {
            let u = v as u16;
            lemma_merge_split_u16(u, big);
            assert(bytes.len() >= 2);
            assert(bytes[0] == split_u16(u, big)[0] && bytes[1] == split_u16(u, big)[1]);
            assert(merge_u16(bytes[0], bytes[1], big) == u);
            assert(!utf16_is_surrogate(u));
            assert(bytes.skip(2) =~= rest);
            assert(items =~= mapped);
        } else {
            let hi = (0xD800 + (v as int - 0x10000) / 0x400) as u16;
            let lo = (0xDC00 + (v as int - 0x10000) % 0x400) as u16;
            vstd::arithmetic::div_mod::lemma_fundamental_div_mod(v as int - 0x10000, 0x400);
            assert(0xD800 <= hi < 0xDC00);
            assert(0xDC00 <= lo <= 0xDFFF);
            lemma_merge_split_u16(hi, big);
            lemma_merge_split_u16(lo, big);
            assert(utf16_encode_scalar(v, big) =~= split_u16(hi, big) + split_u16(lo, big));
            assert(bytes.len() >= 4);
            assert(bytes[0] == split_u16(hi, big)[0] && bytes[1] == split_u16(hi, big)[1]);
            assert(bytes[2] == split_u16(lo, big)[0] && bytes[3] == split_u16(lo, big)[1]);
            assert(bytes.skip(2)[0] == bytes[2] && bytes.skip(2)[1] == bytes[3]);
            assert(merge_u16(bytes[0], bytes[1], big) == hi);
            assert(merge_u16(bytes.skip(2)[0], bytes.skip(2)[1], big) == lo);
            assert(combine_surrogates(hi, lo) == v);
            assert(bytes.skip(2).skip(2) =~= rest);
            assert(bytes.skip(4) =~= rest);
            assert(items == utf16_items(bytes.skip(2), big, pos + 2, Some(hi)));
            assert(items =~= mapped);
        }
    }
}

/// Decoding the UTF-32 encoding of valid scalar values yields exactly those
/// scalar values, with no error.
pub proof fn lemma_utf32_roundtrip_items(sc: Seq<u32>, big: bool, pos: int)
    requires
        forall|i: int| 0 <= i < sc.len() ==> is_unicode_scalar(#[trigger] sc[i]),
    ensures
        utf32_items(utf32_encode_all(sc, big), big, pos) == sc.map_values(
            |v: u32| DecodeItem::Scalar(v),
        ),
    decreases sc.len(),
{
    let bytes = utf32_encode_all(sc, big);
    let items = utf32_items(bytes, big, pos);
    let mapped = sc.map_values(|v: u32| DecodeItem::Scalar(v));
    if sc.len() == 0 {
        assert(items =~= mapped);
    } else {
        let v = sc[0];
        assert(is_unicode_scalar(v));
        let rest = utf32_encode_all(sc.skip(1), big);
        lemma_utf32_roundtrip_items(sc.skip(1), big, pos + 4);
        lemma_merge_split_u32(v, big);
        assert(bytes.len() >= 4);
        assert(bytes[0] == split_u32(v, big)[0] && bytes[1] == split_u32(v, big)[1] && bytes[2]
            == split_u32(v, big)[2] && bytes[3] == split_u32(v, big)[3]);
        assert(merge_u32(bytes[0], bytes[1], bytes[2], bytes[3], big) == v);
        assert(bytes.skip(4) =~= rest);
        assert(items =~= mapped);
    }
}

} // verus!

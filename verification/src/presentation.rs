//! State presentation colors and the size checks of an image export.
use vstd::prelude::*;
use crate::map_layers::{fnv1a_from, Color, FNV_OFFSET_BASIS, FNV_PRIME};

verus! {

/// The color of states without manpower data.
pub const MANPOWER_MISSING_COLOR: Color = [0x66, 0x66, 0x66];

/// The color of states with no manpower.
pub const MANPOWER_ZERO_COLOR: Color = [0x25, 0x32, 0x4d];

/// The color of states without a category.
pub const UNCATEGORIZED_COLOR: Color = [0x68, 0x68, 0x68];

/// The twelve colors that state categories are drawn in.
pub open spec fn category_palette_spec(i: int) -> Color {
    if i == 0 {
        [0x4e, 0x79, 0xa7]
    } else if i == 1 {
        [0xf2, 0x8e, 0x2b]
    } else if i == 2 {
        [0x59, 0xa1, 0x4f]
    } else if i == 3 {
        [0xe1, 0x57, 0x59]
    } else if i == 4 {
        [0x76, 0xb7, 0xb2]
    } else if i == 5 {
        [0xb0, 0x7a, 0xa1]
    } else if i == 6 {
        [0xed, 0xc9, 0x48]
    } else if i == 7 {
        [0xff, 0x9d, 0xa7]
    } else if i == 8 {
        [0x9c, 0x75, 0x5f]
    } else if i == 9 {
        [0xba, 0xb0, 0xab]
    } else if i == 10 {
        [0x86, 0xbc, 0xb6]
    } else {
        [0x8c, 0x6d, 0xb0]
    }
}

pub(crate) fn category_palette(i: u32) -> (r: Color)
    requires
        i < 12,
    ensures
        r == category_palette_spec(i as int),
{
    match i {
        0 => [0x4e, 0x79, 0xa7],
        1 => [0xf2, 0x8e, 0x2b],
        2 => [0x59, 0xa1, 0x4f],
        3 => [0xe1, 0x57, 0x59],
        4 => [0x76, 0xb7, 0xb2],
        5 => [0xb0, 0x7a, 0xa1],
        6 => [0xed, 0xc9, 0x48],
        7 => [0xff, 0x9d, 0xa7],
        8 => [0x9c, 0x75, 0x5f],
        9 => [0xba, 0xb0, 0xab],
        10 => [0x86, 0xbc, 0xb6],
        _ => [0x8c, 0x6d, 0xb0],
    }
}

/// A category's color: the palette entry picked by the FNV-1a hash of its
/// bytes, grey without a category or for an empty one.
pub open spec fn category_color_spec(category: Option<Seq<char>>) -> Color {
    match category {
        Some(c) => if c.len() > 0 {
            category_palette_spec((fnv1a_from(FNV_OFFSET_BASIS, vstd::utf8::encode_utf8(c)) % 12) as int)
        } else {
            UNCATEGORIZED_COLOR
        },
        None => UNCATEGORIZED_COLOR,
    }
}

pub fn category_color(category: Option<&str>) -> (r: Color)
    ensures
        r == category_color_spec(match category {
            Some(c) => Some(c@),
            None => None,
        }),
{
    let text = match category {
        Some(c) => c,
        None => {
            return UNCATEGORIZED_COLOR;
        },
    };
    if text.is_empty() {
        return UNCATEGORIZED_COLOR;
    }
    let bytes = text.as_bytes();
    let mut hash: u32 = FNV_OFFSET_BASIS;
    let mut i: usize = 0;
    proof {
        assert(bytes@.skip(0) =~= bytes@);
    }
    while i < bytes.len()
        invariant
            i <= bytes@.len(),
            bytes@ == vstd::utf8::encode_utf8(text@),
            fnv1a_from(hash, bytes@.skip(i as int)) == fnv1a_from(FNV_OFFSET_BASIS, bytes@),
        decreases bytes@.len() - i,
    {
        let b = bytes[i];
        proof {
            assert(bytes@.skip(i as int).drop_first() =~= bytes@.skip(i + 1));
            assert(bytes@.skip(i as int)[0] == b);
        }
        hash = (hash ^ (b as u32)).wrapping_mul(FNV_PRIME);
        i = i + 1;
    }
    proof {
        assert(bytes@.skip(bytes@.len() as int) =~= Seq::<u8>::empty());
    }
    category_palette(hash % 12)
}

/// Largest export, in bytes of RGBA pixels.
pub const MAX_EXPORT_BYTES: u64 = 536_870_912;

/// Why an export of `width` by `height` pixels at `scale` is refused, if it is.
pub open spec fn export_refusal(width: u32, height: u32, scale: u32) -> Option<Seq<char>> {
    if !(scale == 1 || scale == 2 || scale == 4) {
        Some("Export scale must be 1x, 2x, or 4x"@)
    } else if width * scale > u32::MAX {
        Some("Export width overflows supported dimensions"@)
    } else if height * scale > u32::MAX {
        Some("Export height overflows supported dimensions"@)
    } else if (width * scale) * (height * scale) * 4 > u64::MAX {
        Some("Export image size overflows supported memory"@)
    } else if (width * scale) * (height * scale) * 4 > MAX_EXPORT_BYTES {
        Some("Export image is too large (limit: 512 MiB of RGBA pixels)"@)
    } else {
        None
    }
}

/// The exported image's size, or why the export is refused: the scale must
/// be 1, 2 or 4, and the scaled image must fit in 512 MiB of RGBA pixels.
pub fn checked_export_dimensions(width: u32, height: u32, scale: u32) -> (r: Result<[u32; 2], String>)
    ensures
        match r {
            Ok(d) => export_refusal(width, height, scale) is None && d[0] == width * scale && d[1] == height * scale,
            Err(m) => export_refusal(width, height, scale) == Some(m@),
        },
{
    if !(scale == 1 || scale == 2 || scale == 4) {
        return Err(String::from_str("Export scale must be 1x, 2x, or 4x"));
    }
    let w = match width.checked_mul(scale) {
        Some(w) => w,
        None => {
            return Err(String::from_str("Export width overflows supported dimensions"));
        },
    };
    let h = match height.checked_mul(scale) {
        Some(h) => h,
        None => {
            return Err(String::from_str("Export height overflows supported dimensions"));
        },
    };
    proof {
        assert((w as u64) * (h as u64) <= u64::MAX) by (nonlinear_arith)
            requires
                w <= u32::MAX,
                h <= u32::MAX,
        ;
    }
    let pixels = (w as u64) * (h as u64);
    let bytes = match pixels.checked_mul(4) {
        Some(b) => b,
        None => {
            return Err(String::from_str("Export image size overflows supported memory"));
        },
    };
    if bytes > MAX_EXPORT_BYTES {
        return Err(String::from_str("Export image is too large (limit: 512 MiB of RGBA pixels)"));
    }
    Ok([w, h])
}

/// Categorised states are drawn in one of the twelve palette colors, never
/// in the grey of uncategorised ones; no category, or an empty one, is grey;
/// one category always gets one color.
pub proof fn lemma_category_color_laws(c: Seq<char>)
    ensures
        category_color_spec(None) == UNCATEGORIZED_COLOR,
        category_color_spec(Some(Seq::<char>::empty())) == UNCATEGORIZED_COLOR,
        c.len() > 0 ==> exists|i: int| 0 <= i < 12 && category_color_spec(Some(c)) == category_palette_spec(i),
        c.len() > 0 ==> category_color_spec(Some(c)) != UNCATEGORIZED_COLOR,
{
    if c.len() > 0 {
        let i = (fnv1a_from(FNV_OFFSET_BASIS, vstd::utf8::encode_utf8(c)) % 12) as int;
        assert(0 <= i < 12);
        assert(category_palette_spec(i) != UNCATEGORIZED_COLOR) by {
            assert(category_palette_spec(i)[0] != 0x68u8 || category_palette_spec(i)[1] != 0x68u8);
        }
    }
}

/// An export is taken only at scale 1, 2 or 4, and only when its RGBA
/// pixels fit the size limit.
pub proof fn lemma_export_laws(width: u32, height: u32, scale: u32)
    ensures
        export_refusal(width, height, scale) is None ==> (scale == 1 || scale == 2 || scale == 4)
            && (width * scale) * (height * scale) * 4 <= MAX_EXPORT_BYTES,
        !(scale == 1 || scale == 2 || scale == 4) ==> export_refusal(width, height, scale) is Some,
        scale == 1 && (width as int) * (height as int) * 4 <= MAX_EXPORT_BYTES ==> export_refusal(width, height, scale)
            is None,
{
    if scale == 1 && (width as int) * (height as int) * 4 <= MAX_EXPORT_BYTES {
        assert((width * scale) == width as int);
        assert((height * scale) == height as int);
    }
}

} // verus!

//! MSTS terrain tile filenames (`-11cf297c.t`) and WORLD tile filenames
//! (`w-006084+014923.w`) from tile coordinates.
use vstd::prelude::*;
use vstd::string::StringSliceAdditionalSpecFns;

use vstd::utf8::encode_utf8;

use crate::text::{
    all_digits, ascii_chars, ascii_string, dec_digits, is_ascii_bytes, is_digit, lemma_ascii_encode,
    lemma_dec_digits_ascii, lemma_dec_digits_len6, lemma_dec_digits_value, lemma_zero_pad_value,
    parse_i32, parse_i32_spec, push_decimal, sign_len, zero_pad,
};

verus! {

/// MSTS zoom level for standard 2048 m route tiles.
pub const MSTS_TILE_ZOOM_SMALL: u32 = 15;

/// Quadtree rectangle `(x, z, width, height)` visited after `step` halvings
/// while locating tile `(tx, tz)`; the walk starts from the 32768-tile square
/// centred on the origin.
pub open spec fn tile_rect(tx: int, tz: int, step: nat) -> (int, int, int, int)
    decreases step,
{
    if step == 0 {
        (-16384, -16384, 16384, 16384)
    } else {
        let (x, z, w, h) = tile_rect(tx, tz, (step - 1) as nat);
        let east = tx >= x + w;
        let north = tz >= z + h;
        (if east { x + w } else { x }, if north { z + h } else { z }, w / 2, h / 2)
    }
}

/// Quadrant (0..=3) chosen at `step`: 0 = north-east, 1 = north-west,
/// 2 = south-west, 3 = south-east.
pub open spec fn tile_quadrant(tx: int, tz: int, step: nat) -> int {
    let (x, z, w, h) = tile_rect(tx, tz, step);
    let east = tx >= x + w;
    let north = tz >= z + h;
    (if north { 0int } else { 2int }) + (if east != north { 0int } else { 1int })
}

/// Upper-case hexadecimal digit.
pub open spec fn hex_digit(v: int) -> u8 {
    if v < 10 {
        (48 + v) as u8
    } else {
        (55 + v) as u8
    }
}

/// Tile file stem: `-` for odd zoom levels, `_` for even ones, then one hex
/// digit per pair of quadrants (the last, unpaired quadrant shifted left by 2).
pub open spec fn tile_name_spec(tx: int, tz: int, zoom: nat) -> Seq<u8> {
    let prefix: Seq<u8> = if zoom % 2 == 1 { seq![45u8] } else { seq![95u8] };
    let pairs = Seq::new(zoom / 2, |i: int|
        hex_digit(4 * tile_quadrant(tx, tz, (2 * i) as nat) + tile_quadrant(tx, tz, (2 * i + 1) as nat)));
    let tail: Seq<u8> = if zoom % 2 == 1 {
        seq![hex_digit(4 * tile_quadrant(tx, tz, (zoom - 1) as nat))]
    } else {
        seq![]
    };
    prefix + pairs + tail
}

/// Build the `TILES/` filename stem (e.g. `-11CF297C`) for a tile at the
/// standard zoom level.
pub fn msts_tile_name_from_xz(tile_x: i32, tile_z: i32) -> (r: String)
    ensures
        r@ == ascii_chars(tile_name_spec(tile_x as int, tile_z as int, 15)),
{
    msts_tile_name_from_xz_zoom(tile_x, tile_z, MSTS_TILE_ZOOM_SMALL)
}

fn hex_byte(v: u32) -> (r: u8)
    requires
        v < 16,
    ensures
        r == hex_digit(v as int),
{
    if v < 10 {
        (48 + v) as u8
    } else {
        (55 + v) as u8
    }
}

/// Build the tile filename stem for an arbitrary zoom level.
pub fn msts_tile_name_from_xz_zoom(tile_x: i32, tile_z: i32, zoom: u32) -> (r: String)
    ensures
        r@ == ascii_chars(tile_name_spec(tile_x as int, tile_z as int, zoom as nat)),
{
    let ghost tx = tile_x as int;
    let ghost tz = tile_z as int;
    let mut rect_x: i32 = -16384;
    let mut rect_z: i32 = -16384;
    let mut rect_w: i32 = 16384;
    let mut rect_h: i32 = 16384;
    let mut name: Vec<u8> = Vec::new();
    if zoom % 2 == 1 {
        name.push(45u8);
    } else {
        name.push(95u8);
    }
    let ghost prefix = name@;
    let mut partial: u32 = 0;
    let mut z: u32 = 0;
    while z < zoom
        invariant
            z <= zoom,
            tx == tile_x,
            tz == tile_z,
            (rect_x as int, rect_z as int, rect_w as int, rect_h as int) == tile_rect(tx, tz, z as nat),
            -16384 <= rect_x,
            rect_x + 2 * rect_w <= 16384,
            0 <= rect_w,
            -16384 <= rect_z,
            rect_z + 2 * rect_h <= 16384,
            0 <= rect_h,
            prefix == (if zoom % 2 == 1 { seq![45u8] } else { seq![95u8] }),
            name@ == prefix + Seq::new((z / 2) as nat, |i: int|
                hex_digit(4 * tile_quadrant(tx, tz, (2 * i) as nat) + tile_quadrant(tx, tz, (2 * i + 1) as nat))),
            partial as int == (if z % 2 == 1 { tile_quadrant(tx, tz, (z - 1) as nat) } else { 0 }),
            partial < 4,
        decreases zoom - z,
    {
        let east = tile_x >= rect_x + rect_w;
        let north = tile_z >= rect_z + rect_h;
        let q: u32 = (if north { 0 } else { 2 }) + (if east != north { 0 } else { 1 });
        assert(q == tile_quadrant(tx, tz, z as nat));
        partial = partial * 4 + q;
        if z % 2 == 1 {
            let ghost before = name@;
            name.push(hex_byte(partial));
            assert(name@ =~= prefix + Seq::new(((z + 1) / 2) as nat, |i: int|
                hex_digit(4 * tile_quadrant(tx, tz, (2 * i) as nat) + tile_quadrant(tx, tz, (2 * i + 1) as nat))));
            partial = 0;
        } else {
            assert((z + 1) / 2 == z / 2);
        }
        if east {
            rect_x = rect_x + rect_w;
        }
        if north {
            rect_z = rect_z + rect_h;
        }
        rect_w = rect_w / 2;
        rect_h = rect_h / 2;
        z = z + 1;
    }
    if zoom % 2 == 1 {
        name.push(hex_byte(partial * 4));
    }
    assert(name@ =~= tile_name_spec(tx, tz, zoom as nat));
    proof {
        assert forall|i: int| 0 <= i < name@.len() implies name@[i] < 128 by {
            let s = tile_name_spec(tx, tz, zoom as nat);
            if i >= 1 && i < 1 + zoom / 2 {
                let k = i - 1;
                assert(0 <= 4 * tile_quadrant(tx, tz, (2 * k) as nat) + tile_quadrant(tx, tz, (2 * k + 1) as nat) < 16);
            } else if i >= 1 {
                assert(0 <= 4 * tile_quadrant(tx, tz, (zoom - 1) as nat) < 16);
            }
        }
    }
    ascii_string(&name)
}

/// An upper-case hexadecimal digit (`0`-`9`, `A`-`F`).
pub open spec fn is_upper_hex(b: u8) -> bool {
    (48 <= b <= 57) || (65 <= b <= 70)
}

/// The shape of a tile name: one prefix character (`-` for odd zoom levels,
/// `_` for even ones), then `(zoom + 1) / 2` upper-case hex digits; at an odd
/// zoom level the last digit is `0`, `4`, `8` or `C`; and at an even zoom
/// level of 2 or more the name extends the name two levels up.
pub proof fn lemma_tile_name_shape(tx: int, tz: int, zoom: nat)
    ensures
        ({
            let n = tile_name_spec(tx, tz, zoom);
            &&& n.len() == 1 + (zoom + 1) / 2
            &&& n[0] == (if zoom % 2 == 1 { 45u8 } else { 95u8 })
            &&& forall|i: int| 1 <= i < n.len() ==> is_upper_hex(#[trigger] n[i])
            &&& zoom % 2 == 1 ==> (n.last() == 48u8 || n.last() == 52u8 || n.last() == 56u8
                || n.last() == 67u8)
            &&& zoom % 2 == 0 && zoom >= 2 ==> n.subrange(0, tile_name_spec(tx, tz, (zoom - 2) as nat).len() as int)
                == tile_name_spec(tx, tz, (zoom - 2) as nat)
        }),
{
    let n = tile_name_spec(tx, tz, zoom);
    assert forall|i: int| 1 <= i < n.len() implies is_upper_hex(#[trigger] n[i]) by {
        if i < 1 + zoom / 2 {
            let k = i - 1;
            let v = 4 * tile_quadrant(tx, tz, (2 * k) as nat) + tile_quadrant(tx, tz, (2 * k + 1) as nat);
            assert(0 <= v < 16);
        } else {
            let v = 4 * tile_quadrant(tx, tz, (zoom - 1) as nat);
            assert(0 <= v < 16);
        }
    }
    if zoom % 2 == 1 {
        let q = tile_quadrant(tx, tz, (zoom - 1) as nat);
        assert(0 <= q < 4);
        assert(n.last() == hex_digit(4 * q));
    }
    if zoom % 2 == 0 && zoom >= 2 {
        let m = tile_name_spec(tx, tz, (zoom - 2) as nat);
        assert(n.subrange(0, m.len() as int) =~= m);
    }
}

/// Text of one signed world-tile coordinate: sign then at least 6 digits.
pub open spec fn w_coord_text(v: int) -> Seq<u8> {
    (if v < 0 { seq![45u8] } else { seq![43u8] }) + zero_pad(dec_digits((if v < 0 { -v } else { v }) as nat), 6)
}

/// `.w` filename text for signed tile coordinates.
pub open spec fn w_filename_spec(tile_x: int, tile_z: int) -> Seq<u8> {
    seq![119u8] + w_coord_text(tile_x) + w_coord_text(tile_z) + seq![46u8, 119u8]
}

fn push_w_coord(out: &mut Vec<u8>, v: i32)
    requires
        v > i32::MIN,
    ensures
        final(out)@ == old(out)@ + w_coord_text(v as int),
{
    let mag: u32 = if v < 0 {
        out.push(45u8);
        (-v) as u32
    } else {
        out.push(43u8);
        v as u32
    };
    let mut digits: Vec<u8> = Vec::new();
    push_decimal(&mut digits, mag as u64);
    let mut pad = digits.len();
    let ghost padded_start = out@;
    while pad < 6
        invariant
            pad <= 6 || pad == digits@.len(),
            digits@.len() <= pad,
            out@ == padded_start + Seq::new((pad - digits@.len()) as nat, |i: int| 48u8),
        decreases 6 - pad,
    {
        out.push(48u8);
        pad = pad + 1;
        assert(out@ =~= padded_start + Seq::new((pad - digits@.len()) as nat, |i: int| 48u8));
    }
    let mut i: usize = 0;
    let ghost before_digits = out@;
    while i < digits.len()
        invariant
            i <= digits@.len(),
            out@ == before_digits + digits@.subrange(0, i as int),
        decreases digits@.len() - i,
    {
        out.push(digits[i]);
        i = i + 1;
        assert(out@ =~= before_digits + digits@.subrange(0, i as int));
    }
    assert(digits@.subrange(0, digits@.len() as int) =~= digits@);
    assert(out@ =~= old(out)@ + w_coord_text(v as int));
}

/// `.w` filename (`w-006084+014923.w`) from signed tile coords.
pub fn world_w_filename_from_tile_xz(tile_x: i32, tile_z: i32) -> (r: String)
    requires
        tile_x > i32::MIN,
        tile_z > i32::MIN,
    ensures
        r@ == ascii_chars(w_filename_spec(tile_x as int, tile_z as int)),
{
    let mut out: Vec<u8> = Vec::new();
    out.push(119u8);
    push_w_coord(&mut out, tile_x);
    push_w_coord(&mut out, tile_z);
    out.push(46u8);
    out.push(119u8);
    assert(out@ =~= w_filename_spec(tile_x as int, tile_z as int));
    proof {
        lemma_w_filename_ascii(tile_x as int, tile_z as int);
    }
    ascii_string(&out)
}

proof fn lemma_w_coord_ascii(v: int)
    ensures
        is_ascii_bytes(w_coord_text(v)),
{
    let d = dec_digits((if v < 0 { -v } else { v }) as nat);
    lemma_dec_digits_ascii((if v < 0 { -v } else { v }) as nat);
    assert(is_ascii_bytes(zero_pad(d, 6)));
}

proof fn lemma_w_filename_ascii(x: int, z: int)
    ensures
        is_ascii_bytes(w_filename_spec(x, z)),
{
    lemma_w_coord_ascii(x);
    lemma_w_coord_ascii(z);
}

/// One coordinate field of a world filename stem: a sign byte (`-`, `+` or
/// `_`) followed by text that `str::parse::<i32>` accepts.
pub open spec fn w_coord_spec(field: Seq<u8>) -> Option<int> {
    match parse_i32_spec(field.subrange(1, field.len() as int)) {
        Some(v) => if field[0] == 45 {
            Some(-v)
        } else if field[0] == 43 || field[0] == 95 {
            Some(v as int)
        } else {
            None
        },
        None => None,
    }
}

/// Signed tile coords from a WORLD filename stem (`w-006084+014923`): a
/// leading `w`/`W`, then two 7-byte fields at bytes 1..8 and 8..15.
pub open spec fn w_stem_spec(stem: Seq<u8>) -> Option<(i32, i32)> {
    if stem.len() == 0 || !(stem[0] == 119 || stem[0] == 87) || stem.len() < 15 {
        None
    } else {
        match (w_coord_spec(stem.subrange(1, 8)), w_coord_spec(stem.subrange(8, 15))) {
            (Some(x), Some(z)) => if i32::MIN <= x <= i32::MAX && i32::MIN <= z <= i32::MAX {
                Some((x as i32, z as i32))
            } else {
                None
            },
            _ => None,
        }
    }
}

/// UTF-8 continuation byte (not a character boundary).
pub open spec fn is_continuation(b: u8) -> bool {
    0x80 <= b <= 0xbf
}

/// Text slicing of the stem would cut a character: the split after the
/// first field (byte 8) or after its sign (byte 2), or, once the first field
/// has parsed, the end of the second field (byte 15) or its sign (byte 9).
pub open spec fn w_stem_cuts_inside_char(stem: Seq<u8>) -> bool {
    &&& stem.len() >= 15
    &&& (stem[0] == 119 || stem[0] == 87)
    &&& (is_continuation(stem[8]) || is_continuation(stem[2]) || (w_coord_spec(
        stem.subrange(1, 8),
    ) is Some && (is_continuation(stem[9]) || (stem.len() > 15 && is_continuation(stem[15])))))
}

fn parse_w_coord(field: &[u8]) -> (r: Option<i32>)
    requires
        field@.len() == 7,
    ensures
        r matches Some(v) ==> w_coord_spec(field@) == Some(v as int),
        r is None ==> w_coord_spec(field@) is None || !(i32::MIN <= w_coord_spec(field@).unwrap() <= i32::MAX),
{
    let digits = slice_from(field, 1);
    let v = parse_i32(digits)?;
    if field[0] == 45u8 {
        if v == i32::MIN {
            return None;
        }
        Some(-v)
    } else if field[0] == 43u8 || field[0] == 95u8 {
        Some(v)
    } else {
        None
    }
}

/// `s[start..]`.
pub fn slice_from(s: &[u8], start: usize) -> (r: &[u8])
    requires
        start <= s@.len(),
    ensures
        r@ == s@.subrange(start as int, s@.len() as int),
{
    slice_range(s, start, s.len())
}

/// `s[start..end]`.
pub fn slice_range(s: &[u8], start: usize, end: usize) -> (r: &[u8])
    requires
        start <= end <= s@.len(),
    ensures
        r@ == s@.subrange(start as int, end as int),
{
    vstd::slice::slice_subrange(s, start, end)
}

/// Signed tile coords from the bytes of a WORLD filename stem.
pub fn parse_world_w_stem(stem: &[u8]) -> (r: Option<(i32, i32)>)
    ensures
        r == w_stem_spec(stem@),
{
    if stem.len() == 0 || !(stem[0] == 119u8 || stem[0] == 87u8) || stem.len() < 15 {
        return None;
    }
    let xf = slice_range(stem, 1, 8);
    let zf = slice_range(stem, 8, 15);
    let x = parse_w_coord(xf);
    let z = parse_w_coord(zf);
    match (x, z) {
        (Some(x), Some(z)) => Some((x, z)),
        _ => None,
    }
}

/// Index of the last occurrence of byte `c` in `s`.
pub open spec fn last_index_of(s: Seq<u8>, c: u8) -> Option<int>
    decreases s.len(),
{
    if s.len() == 0 {
        None
    } else if s.last() == c {
        Some(s.len() - 1)
    } else {
        last_index_of(s.drop_last(), c)
    }
}

/// A `/`-separated path text without the trailing `/` and `/.` that
/// `Path::components` ignores (`a/b/./` reads as `a/b`).
pub open spec fn strip_tail(p: Seq<u8>) -> Seq<u8>
    decreases p.len(),
{
    if p.len() >= 2 && p.last() == 47u8 {
        strip_tail(p.drop_last())
    } else if p.len() >= 2 && p.last() == 46u8 && p[p.len() - 2] == 47u8 {
        strip_tail(p.subrange(0, p.len() - 2))
    } else {
        p
    }
}

/// `Path::file_name` of a `/`-separated path text: its last component, unless
/// that is empty (the root), `.` or `..`.
pub open spec fn file_name_spec(path: Seq<u8>) -> Option<Seq<u8>> {
    let s = strip_tail(path);
    let name = match last_index_of(s, 47) {
        Some(i) => s.subrange(i + 1, s.len() as int),
        None => s,
    };
    if name.len() == 0 || name == seq![46u8] || name == seq![46u8, 46u8] {
        None
    } else {
        Some(name)
    }
}

/// `Path::file_stem`: the file name before its last `.`, or the whole name
/// when it has no `.` but a leading one.
pub open spec fn file_stem_spec(path: Seq<u8>) -> Option<Seq<u8>> {
    match file_name_spec(path) {
        None => None,
        Some(name) => match last_index_of(name, 46) {
            Some(i) => if i == 0 {
                Some(name)
            } else {
                Some(name.subrange(0, i))
            },
            None => Some(name),
        },
    }
}

/// `Path::extension`: the file name after its last `.`, when that dot is not
/// the name's first byte.
pub open spec fn extension_spec(path: Seq<u8>) -> Option<Seq<u8>> {
    match file_name_spec(path) {
        None => None,
        Some(name) => match last_index_of(name, 46) {
            Some(i) => if i == 0 {
                None
            } else {
                Some(name.subrange(i + 1, name.len() as int))
            },
            None => None,
        },
    }
}

/// Find the last occurrence of `c` in `s`.
pub fn find_last_byte(s: &[u8], c: u8) -> (r: Option<usize>)
    ensures
        r matches Some(i) ==> last_index_of(s@, c) == Some(i as int) && i < s@.len() && s@[i as int] == c,
        r is None ==> last_index_of(s@, c) is None,
{
    let mut i = s.len();
    assert(s@.subrange(0, s@.len() as int) =~= s@);
    while i > 0
        invariant
            i <= s@.len(),
            last_index_of(s@, c) == last_index_of(s@.subrange(0, i as int), c),
        decreases i,
    {
        let ghost pre = s@.subrange(0, i as int);
        if s[i - 1] == c {
            return Some(i - 1);
        }
        assert(pre.drop_last() =~= s@.subrange(0, i - 1));
        i = i - 1;
    }
    None
}

/// Length of the path text once trailing `/` and `/.` are dropped.
fn strip_tail_len(path: &[u8]) -> (n: usize)
    ensures
        n <= path@.len(),
        path@.subrange(0, n as int) == strip_tail(path@),
{
    let mut n = path.len();
    assert(path@.subrange(0, n as int) =~= path@);
    while n >= 2 && (path[n - 1] == 47u8 || (path[n - 1] == 46u8 && path[n - 2] == 47u8))
        invariant
            n <= path@.len(),
            strip_tail(path@) == strip_tail(path@.subrange(0, n as int)),
        decreases n,
    {
        let ghost pre = path@.subrange(0, n as int);
        if path[n - 1] == 47u8 {
            assert(pre.drop_last() =~= path@.subrange(0, n - 1));
            n = n - 1;
        } else {
            assert(pre.subrange(0, pre.len() - 2) =~= path@.subrange(0, n - 2));
            n = n - 2;
        }
    }
    n
}

/// The file name bytes of a `/`-separated path text.
pub fn file_name_of(path: &[u8]) -> (r: Option<&[u8]>)
    ensures
        r matches Some(b) ==> file_name_spec(path@) == Some(b@),
        r is None ==> file_name_spec(path@) is None,
{
    let n = strip_tail_len(path);
    let s = slice_range(path, 0, n);
    assert(s@.subrange(0, s@.len() as int) =~= s@);
    let name = match find_last_byte(s, 47u8) {
        Some(i) => slice_from(s, i + 1),
        None => s,
    };
    if name.len() == 0 || (name.len() == 1 && name[0] == 46u8) || (name.len() == 2 && name[0]
        == 46u8 && name[1] == 46u8) {
        assert(name@.len() == 1 ==> name@ =~= seq![46u8]);
        assert(name@.len() == 2 ==> name@ =~= seq![46u8, 46u8]);
        return None;
    }
    assert(name@ != seq![46u8]);
    assert(name@ != seq![46u8, 46u8]);
    Some(name)
}

/// The file stem bytes of a `/`-separated path text.
pub fn file_stem_of(path: &[u8]) -> (r: Option<&[u8]>)
    ensures
        r matches Some(b) ==> file_stem_spec(path@) == Some(b@),
        r is None ==> file_stem_spec(path@) is None,
{
    let name = match file_name_of(path) {
        Some(n) => n,
        None => return None,
    };
    assert(name@.subrange(0, name@.len() as int) =~= name@);
    match find_last_byte(name, 46u8) {
        Some(i) => if i == 0 {
            Some(name)
        } else {
            Some(slice_range(name, 0, i))
        },
        None => Some(name),
    }
}

/// The extension bytes of a `/`-separated path text.
pub fn extension_of(path: &[u8]) -> (r: Option<&[u8]>)
    ensures
        r matches Some(b) ==> extension_spec(path@) == Some(b@),
        r is None ==> extension_spec(path@) is None,
{
    let name = match file_name_of(path) {
        Some(n) => n,
        None => return None,
    };
    assert(name@.subrange(0, name@.len() as int) =~= name@);
    match find_last_byte(name, 46u8) {
        Some(i) => if i == 0 {
            None
        } else {
            assert(i < name@.len() && name@.len() == name.len());
            Some(slice_from(name, i + 1))
        },
        None => None,
    }
}

/// Signed tile coords of a WORLD file (`w-006084+014923.w` → `(-6084, 14923)`),
/// given the file's path text. The sign characters are part of the value.
pub fn parse_world_w_tile_xz(path: &str) -> (r: Option<(i32, i32)>)
    requires
        file_stem_spec(path.spec_bytes()) matches Some(stem) ==> !w_stem_cuts_inside_char(stem),
    ensures
        r == (match file_stem_spec(path.spec_bytes()) {
            Some(stem) => w_stem_spec(stem),
            None => None,
        }),
{
    let bytes = path.as_bytes();
    let s = match file_stem_of(bytes) {
        Some(s) => s,
        None => return None,
    };
    parse_world_w_stem(s)
}

/// No byte of `s` is `c`, so it has no last occurrence.
proof fn lemma_last_index_none(s: Seq<u8>, c: u8)
    requires
        forall|i: int| 0 <= i < s.len() ==> s[i] != c,
    ensures
        last_index_of(s, c) is None,
    decreases s.len(),
{
    if s.len() > 0 {
        lemma_last_index_none(s.drop_last(), c);
    }
}

/// A coordinate of at most six digits: its field is seven bytes, a sign and
/// six digits, and reads back as the coordinate.
proof fn lemma_w_coord_field(v: int)
    requires
        -999_999 <= v <= 999_999,
    ensures
        w_coord_text(v).len() == 7,
        w_coord_text(v)[0] == 45u8 || w_coord_text(v)[0] == 43u8,
        forall|i: int| 1 <= i < 7 ==> is_digit(#[trigger] w_coord_text(v)[i]),
        w_coord_spec(w_coord_text(v)) == Some(v),
{
    let mag: nat = (if v < 0 { -v } else { v }) as nat;
    let d = dec_digits(mag);
    lemma_dec_digits_value(mag);
    lemma_dec_digits_len6(mag);
    lemma_zero_pad_value(d, 6);
    let pad = zero_pad(d, 6);
    let f = w_coord_text(v);
    assert(f =~= (if v < 0 { seq![45u8] } else { seq![43u8] }) + pad);
    assert(f.subrange(1, 7) =~= pad);
    assert forall|i: int| 1 <= i < 7 implies is_digit(#[trigger] f[i]) by {
        assert(f[i] == pad[i - 1]);
    }
    assert(sign_len(pad) == 0) by {
        assert(is_digit(pad[0]));
    }
    assert(pad.subrange(0, 6) =~= pad);
    assert(parse_i32_spec(pad) == Some(mag as i32));
}

/// A WORLD file name built from tile coordinates reads back as the same
/// coordinates, for coordinates of at most six digits (wider ones do not fit
/// the fixed-width fields the parser reads). The name is ASCII, so its text
/// and its bytes agree, and its stem is cut only on character boundaries.
pub proof fn lemma_world_filename_roundtrip(x: i32, z: i32)
    requires
        -999_999 <= x <= 999_999,
        -999_999 <= z <= 999_999,
    ensures
        encode_utf8(ascii_chars(w_filename_spec(x as int, z as int))) == w_filename_spec(
            x as int,
            z as int,
        ),
        file_stem_spec(w_filename_spec(x as int, z as int)) matches Some(stem)
            && !w_stem_cuts_inside_char(stem) && w_stem_spec(stem) == Some((x, z)),
{
    let cx = w_coord_text(x as int);
    let cz = w_coord_text(z as int);
    lemma_w_coord_field(x as int);
    lemma_w_coord_field(z as int);
    lemma_w_filename_ascii(x as int, z as int);
    let f = w_filename_spec(x as int, z as int);
    lemma_ascii_encode(f);
    assert(f.len() == 17);
    assert forall|i: int| 0 <= i < f.len() implies f[i] != 47u8 && (i != 15 ==> f[i] != 46u8) by {
        if 1 <= i < 8 {
            assert(f[i] == cx[i - 1]);
            if i > 1 {
                assert(is_digit(cx[i - 1]));
            }
        } else if 8 <= i < 15 {
            assert(f[i] == cz[i - 8]);
            if i > 8 {
                assert(is_digit(cz[i - 8]));
            }
        }
    }
    lemma_last_index_none(f, 47u8);
    assert(strip_tail(f) == f);
    assert(file_name_spec(f) == Some(f));
    assert(f.last() == 119u8);
    assert(f.drop_last().last() == 46u8);
    assert(last_index_of(f.drop_last(), 46u8) == Some(15int));
    assert(last_index_of(f, 46u8) == Some(15int));
    assert(f != seq![46u8, 46u8]);
    let stem = f.subrange(0, 15);
    assert(file_stem_spec(f) == Some(stem));
    assert(stem.subrange(1, 8) =~= cx);
    assert(stem.subrange(8, 15) =~= cz);
    assert(is_ascii_bytes(stem)) by {
        assert forall|i: int| 0 <= i < stem.len() implies stem[i] < 128 by {
            assert(stem[i] == f[i]);
        }
    }
    assert(!is_continuation(stem[2]) && !is_continuation(stem[8]) && !is_continuation(stem[9]));
}

} // verus!

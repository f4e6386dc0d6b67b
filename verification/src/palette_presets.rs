//! The named color palettes the viewer offers, with channels in
//! hundredths (`0..=100` stands for `0.0..=1.0`).
use vstd::prelude::*;

verus! {

/// A named palette preset: between two and eight RGB colors, each channel
/// in hundredths.
pub struct PalettePreset {
    pub name: &'static str,
    pub colors: Vec<[u32; 3]>,
}

/// Whether a preset is usable: a name, two to eight colors, channels at
/// most 100 (that is, 1.0).
pub open spec fn preset_ok(p: PalettePreset) -> bool {
    &&& p.name@.len() > 0
    &&& 2 <= p.colors.len() <= 8
    &&& forall|i: int, k: int| 0 <= i < p.colors.len() && 0 <= k < 3 ==> #[trigger] p.colors@[i][k] <= 100
}

/// Names of the presets, in menu order.
pub open spec fn preset_name(i: int) -> Seq<char> {
    if i == 0 {
        "Inferno"@
    } else if i == 1 {
        "Ocean"@
    } else if i == 2 {
        "Sunset"@
    } else if i == 3 {
        "Magma"@
    } else if i == 4 {
        "Viridis"@
    } else if i == 5 {
        "Classic"@
    } else if i == 6 {
        "Fire"@
    } else {
        "Ice"@
    }
}

/// Colors of the presets, in menu order.
pub open spec fn preset_colors(i: int) -> Seq<[u32; 3]> {
    if i == 0 {
        seq![[0, 0, 4], [28, 6, 38], [72, 16, 29], [99, 56, 13], [98, 99, 64]]
    } else if i == 1 {
        seq![[0, 5, 15], [0, 20, 50], [0, 50, 70], [30, 80, 80], [90, 95, 100]]
    } else if i == 2 {
        seq![[10, 0, 20], [50, 0, 40], [90, 20, 20], [100, 60, 10], [100, 95, 50]]
    } else if i == 3 {
        seq![[0, 0, 2], [27, 5, 35], [65, 14, 35], [97, 41, 22], [99, 82, 53]]
    } else if i == 4 {
        seq![[27, 0, 33], [28, 23, 51], [13, 44, 51], [37, 65, 37], [99, 91, 15]]
    } else if i == 5 {
        seq![[80, 30, 10], [10, 40, 80]]
    } else if i == 6 {
        seq![[0, 0, 0], [50, 0, 0], [100, 30, 0], [100, 70, 0], [100, 100, 50], [100, 100, 100]]
    } else {
        seq![[0, 0, 10], [10, 20, 50], [30, 50, 80], [60, 80, 100], [90, 95, 100]]
    }
}

fn preset(name: &'static str, colors: Vec<[u32; 3]>) -> (p: PalettePreset)
    ensures
        p.name == name,
        p.colors@ == colors@,
{
    PalettePreset { name, colors }
}

/// The palette presets, in menu order.
pub fn palette_presets() -> (v: Vec<PalettePreset>)
    ensures
        v.len() == 8,
        forall|i: int| 0 <= i < 8 ==> #[trigger] preset_ok(v@[i]),
        forall|i: int| 0 <= i < 8 ==> #[trigger] v@[i].name@ == preset_name(i),
        forall|i: int| 0 <= i < 8 ==> #[trigger] v@[i].colors@ == preset_colors(i),
{
    let mut v: Vec<PalettePreset> = Vec::new();
    v.push(preset("Inferno", vec![[0, 0, 4], [28, 6, 38], [72, 16, 29], [99, 56, 13], [98, 99, 64]]));
    v.push(preset("Ocean", vec![[0, 5, 15], [0, 20, 50], [0, 50, 70], [30, 80, 80], [90, 95, 100]]));
    v.push(preset("Sunset", vec![[10, 0, 20], [50, 0, 40], [90, 20, 20], [100, 60, 10], [100, 95, 50]]));
    v.push(preset("Magma", vec![[0, 0, 2], [27, 5, 35], [65, 14, 35], [97, 41, 22], [99, 82, 53]]));
    v.push(preset("Viridis", vec![[27, 0, 33], [28, 23, 51], [13, 44, 51], [37, 65, 37], [99, 91, 15]]));
    v.push(preset("Classic", vec![[80, 30, 10], [10, 40, 80]]));
    v.push(preset("Fire", vec![[0, 0, 0], [50, 0, 0], [100, 30, 0], [100, 70, 0], [100, 100, 50], [100, 100, 100]]));
    v.push(preset("Ice", vec![[0, 0, 10], [10, 20, 50], [30, 50, 80], [60, 80, 100], [90, 95, 100]]));
    proof {
        reveal_strlit("Inferno");
        reveal_strlit("Ocean");
        reveal_strlit("Sunset");
        reveal_strlit("Magma");
        reveal_strlit("Viridis");
        reveal_strlit("Classic");
        reveal_strlit("Fire");
        reveal_strlit("Ice");
    }
    v
}

/// Index `idx` clamped to a palette of `count` colors.
pub open spec fn clamp_index(idx: int, count: int) -> int {
    if idx < count - 1 { idx } else { count - 1 }
}

/// The four palette entries a Catmull-Rom sample between entries `i` and
/// `i + 1` reads: the previous, current, next and one after, each clamped
/// to the palette (the previous one to the first entry as well).
pub fn catmull_rom_indices(i: u32, count: u32) -> (r: [usize; 4])
    requires
        count >= 1,
        i <= u32::MAX - 2,
    ensures
        r[0] as int == clamp_index(if i > 0 { i - 1 } else { 0 }, count as int),
        r[1] as int == clamp_index(i as int, count as int),
        r[2] as int == clamp_index(i + 1, count as int),
        r[3] as int == clamp_index(clamp_index(i + 2, count as int), count as int),
        forall|k: int| 0 <= k < 4 ==> (#[trigger] r[k]) < count,
        r[0] <= r[1] <= r[2] <= r[3],
        r[1] == vstd::math::min(i as int, count - 1),
        forall|k: int| 1 <= k < 3 && (#[trigger] r[k]) < count - 1 ==> r[k + 1] == r[k] + 1,
        forall|k: int| 0 <= k < 3 ==> #[trigger] r[k + 1] <= r[k] + 1,
        (i > 0 && i < count) ==> r[0] == i - 1,
        i == 0 ==> r[0] == 0,
{
    let last = count - 1;
    let prev = if i > 0 { i - 1 } else { 0 };
    let p0 = if prev < last { prev } else { last };
    let p1 = if i < last { i } else { last };
    let p2 = if i + 1 < last { i + 1 } else { last };
    let far = if i + 2 < last { i + 2 } else { last };
    let p3 = if far < last { far } else { last };
    [p0 as usize, p1 as usize, p2 as usize, p3 as usize]
}

/// Law: a Catmull-Rom window is four consecutive palette entries, cut off
/// at the ends. The entries never decrease and step by at most one; the
/// current entry is segment `i` (the last entry past the end); each later
/// entry is the next one until the last entry is reached, after which it
/// stays there; and the previous entry is the one before `i` (the first
/// entry for `i = 0`).
pub proof fn lemma_catmull_rom_window(i: int, count: int, r: Seq<int>)
    requires
        count >= 1,
        i >= 0,
        r.len() == 4,
        r[0] == clamp_index(if i > 0 { i - 1 } else { 0 }, count),
        r[1] == clamp_index(i, count),
        r[2] == clamp_index(i + 1, count),
        r[3] == clamp_index(clamp_index(i + 2, count), count),
    ensures
        forall|k: int| 0 <= k < 4 ==> 0 <= #[trigger] r[k] <= count - 1,
        r[0] <= r[1] <= r[2] <= r[3],
        forall|k: int| 0 <= k < 3 ==> #[trigger] r[k + 1] <= r[k] + 1,
        r[1] == vstd::math::min(i, count - 1),
        forall|k: int| 1 <= k < 3 && (#[trigger] r[k]) < count - 1 ==> r[k + 1] == r[k] + 1,
        (0 < i < count) ==> r[0] == i - 1,
        i == 0 ==> r[0] == 0,
{
}

} // verus!

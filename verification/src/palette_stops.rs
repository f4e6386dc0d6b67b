//! The editable color stops of the palette in the color settings: up to
//! eight stops, of which the first `count` are in use. Colors are the bit
//! patterns of `f32` RGB values.
use vstd::prelude::*;

verus! {

/// Number of stop slots.
pub const STOP_SLOTS: usize = 8;

/// Preset index that marks the palette as edited by hand (one past the last
/// preset).
pub const CUSTOM_PRESET: usize = 8;

/// The palette part of the color settings.
pub struct PaletteStops {
    /// The stop slots; slots at `count` and beyond are unused.
    pub colors: Vec<[u32; 3]>,
    /// Number of stops in use.
    pub count: u32,
    /// Selected preset, or [`CUSTOM_PRESET`] after an edit.
    pub preset: usize,
    /// Solid color (the first stop of the last applied preset).
    pub base_color: [u32; 3],
    /// Secondary color (the last stop of the last applied preset).
    pub secondary_color: [u32; 3],
}

/// The bit pattern of an all-zero (black) color.
pub open spec fn black() -> [u32; 3] {
    [0u32, 0u32, 0u32]
}

impl PaletteStops {
    /// Eight slots, and no more stops in use than slots.
    pub open spec fn wf(&self) -> bool {
        self.colors.len() == STOP_SLOTS && self.count <= STOP_SLOTS
    }

    /// Removes stop `i`: later stops move down one slot, the freed last
    /// slot becomes black, and the palette counts as edited. Only offered
    /// while more than two stops are in use.
    pub fn remove_stop(&mut self, i: usize)
        requires
            old(self).wf(),
            2 < old(self).count,
            i < old(self).count,
        ensures
            final(self).wf(),
            final(self).count == old(self).count - 1,
            final(self).colors@ == old(self).colors@.take(i as int) + old(self).colors@.subrange(
                i + 1,
                old(self).count as int,
            ) + seq![black()] + old(self).colors@.skip(old(self).count as int),
            final(self).preset == CUSTOM_PRESET,
            final(self).base_color == old(self).base_color,
            final(self).secondary_color == old(self).secondary_color,
    {
        let ghost before = self.colors@;
        let count = self.count as usize;
        let mut j = i;
        assert(before =~= before.take(i as int) + before.subrange(i + 1, i + 1) + before.skip(i as int));
        while j + 1 < count
            invariant
                self.colors.len() == STOP_SLOTS,
                count == old(self).count,
                self.count == old(self).count,
                self.base_color == old(self).base_color,
                self.secondary_color == old(self).secondary_color,
                count <= STOP_SLOTS,
                i <= j < count,
                before.len() == STOP_SLOTS,
                self.colors@ == before.take(i as int) + before.subrange(i + 1, j + 1) + before.skip(j as int),
            decreases count - j,
        {
            let next = self.colors[j + 1];
            self.colors.set(j, next);
            j = j + 1;
            assert(self.colors@ =~= before.take(i as int) + before.subrange(i + 1, j + 1) + before.skip(j as int));
        }
        self.colors.set(count - 1, [0, 0, 0]);
        self.count = self.count - 1;
        self.preset = CUSTOM_PRESET;
        assert(self.colors@ =~= before.take(i as int) + before.subrange(i + 1, count as int) + seq![black()]
            + before.skip(count as int));
    }

    /// Adds a stop after the last one, starting as a copy of the last stop
    /// (of slot 0 when no stop is in use); the palette counts as edited.
    /// Only offered while fewer than eight stops are in use.
    pub fn add_stop(&mut self)
        requires
            old(self).wf(),
            old(self).count < STOP_SLOTS,
        ensures
            final(self).wf(),
            final(self).count == old(self).count + 1,
            final(self).colors@ == old(self).colors@.update(
                old(self).count as int,
                old(self).colors@[if old(self).count == 0 { 0 } else { old(self).count - 1 }],
            ),
            final(self).preset == CUSTOM_PRESET,
            final(self).base_color == old(self).base_color,
            final(self).secondary_color == old(self).secondary_color,
    {
        let count = self.count as usize;
        let from = if count == 0 { 0 } else { count - 1 };
        let last = self.colors[from];
        self.colors.set(count, last);
        self.count = self.count + 1;
        self.preset = CUSTOM_PRESET;
    }

    /// Sets stop `i` to `color`; the palette counts as edited.
    pub fn set_stop(&mut self, i: usize, color: [u32; 3])
        requires
            old(self).wf(),
            i < old(self).count,
        ensures
            final(self).wf(),
            final(self).count == old(self).count,
            final(self).colors@ == old(self).colors@.update(i as int, color),
            final(self).preset == CUSTOM_PRESET,
            final(self).base_color == old(self).base_color,
            final(self).secondary_color == old(self).secondary_color,
    {
        self.colors.set(i, color);
        self.preset = CUSTOM_PRESET;
    }

    /// Applies preset number `index` with the given colors: they become the
    /// stops in use, the other slots become black, and the first and last
    /// colors become the base and secondary colors.
    pub fn apply_preset(&mut self, index: usize, colors: &Vec<[u32; 3]>)
        requires
            old(self).wf(),
            1 <= colors.len() <= STOP_SLOTS,
        ensures
            final(self).wf(),
            final(self).count == colors.len(),
            final(self).colors@ == colors@ + Seq::new((STOP_SLOTS - colors.len()) as nat, |k: int| black()),
            final(self).preset == index,
            final(self).base_color == colors@[0],
            final(self).secondary_color == colors@[colors.len() - 1],
    {
        let mut slots: Vec<[u32; 3]> = Vec::new();
        let mut k: usize = 0;
        while k < STOP_SLOTS
            invariant
                1 <= colors.len() <= STOP_SLOTS,
                k <= STOP_SLOTS,
                slots.len() == k,
                forall|m: int| 0 <= m < k ==> #[trigger] slots@[m] == (if m < colors.len() { colors@[m] } else { black() }),
            decreases STOP_SLOTS - k,
        {
            if k < colors.len() {
                slots.push(colors[k]);
            } else {
                slots.push([0, 0, 0]);
            }
            k = k + 1;
        }
        assert(slots@ =~= colors@ + Seq::new((STOP_SLOTS - colors.len()) as nat, |k: int| black()));
        self.colors = slots;
        self.count = colors.len() as u32;
        self.preset = index;
        self.base_color = colors[0];
        self.secondary_color = colors[colors.len() - 1];
    }
}

/// An edit made in the color settings: removing stop `i` (its "X"
/// button), adding a stop ("+ Add Color"), recoloring stop `i`, or
/// picking preset `index` with its colors (as bit patterns).
pub enum PaletteEdit {
    Remove(usize),
    Add,
    Recolor(usize, [u32; 3]),
    Preset(usize, Vec<[u32; 3]>),
}

/// Whether the settings offer `edit` on a palette with `count` stops in
/// use: removing only above two stops, adding only below eight, setting
/// only a stop in use, and a preset with two to eight colors.
pub open spec fn edit_offered(count: u32, edit: PaletteEdit) -> bool {
    match edit {
        PaletteEdit::Remove(i) => 2 < count && i < count,
        PaletteEdit::Add => count < STOP_SLOTS,
        PaletteEdit::Recolor(i, _) => i < count,
        PaletteEdit::Preset(_, colors) => 2 <= colors.len() <= STOP_SLOTS,
    }
}

impl PaletteStops {
    /// The palette invariant of the settings: two to eight stops in use and
    /// every unused slot black.
    pub open spec fn settled(&self) -> bool {
        &&& self.wf()
        &&& 2 <= self.count <= STOP_SLOTS
        &&& forall|k: int| self.count <= k < STOP_SLOTS ==> #[trigger] self.colors@[k] == black()
    }

    /// Applies `edit` when the settings offer it (see [`edit_offered`]) and
    /// reports whether anything changed; an edit that is not offered
    /// changes nothing. The palette invariant is kept.
    pub fn apply_edit(&mut self, edit: PaletteEdit) -> (changed: bool)
        requires
            old(self).wf(),
        ensures
            final(self).wf(),
            changed == edit_offered(old(self).count, edit),
            !changed ==> *final(self) == *old(self),
            changed ==> match edit {
                PaletteEdit::Remove(i) => {
                    &&& final(self).count == old(self).count - 1
                    &&& final(self).colors@ == old(self).colors@.take(i as int) + old(self).colors@.subrange(
                        i + 1,
                        old(self).count as int,
                    ) + seq![black()] + old(self).colors@.skip(old(self).count as int)
                    &&& final(self).preset == CUSTOM_PRESET
                },
                PaletteEdit::Add => {
                    &&& final(self).count == old(self).count + 1
                    &&& final(self).colors@ == old(self).colors@.update(
                        old(self).count as int,
                        old(self).colors@[if old(self).count == 0 { 0 } else { old(self).count - 1 }],
                    )
                    &&& final(self).preset == CUSTOM_PRESET
                },
                PaletteEdit::Recolor(i, color) => {
                    &&& final(self).count == old(self).count
                    &&& final(self).colors@ == old(self).colors@.update(i as int, color)
                    &&& final(self).preset == CUSTOM_PRESET
                },
                PaletteEdit::Preset(index, colors) => {
                    &&& final(self).count == colors.len()
                    &&& final(self).colors@ == colors@ + Seq::new((STOP_SLOTS - colors.len()) as nat, |k: int| black())
                    &&& final(self).preset == index
                },
            },
            changed && !(edit is Preset) ==> final(self).base_color == old(self).base_color
                && final(self).secondary_color == old(self).secondary_color,
            old(self).settled() ==> final(self).settled(),
    {
        match edit {
            PaletteEdit::Remove(i) => {
                if 2 < self.count && i < self.count as usize {
                    self.remove_stop(i);
                    true
                } else {
                    false
                }
            },
            PaletteEdit::Add => {
                if (self.count as usize) < STOP_SLOTS {
                    self.add_stop();
                    true
                } else {
                    false
                }
            },
            PaletteEdit::Recolor(i, color) => {
                if i < self.count as usize {
                    self.set_stop(i, color);
                    true
                } else {
                    false
                }
            },
            PaletteEdit::Preset(index, colors) => {
                if 2 <= colors.len() && colors.len() <= STOP_SLOTS {
                    self.apply_preset(index, &colors);
                    true
                } else {
                    false
                }
            },
        }
    }
}

} // verus!

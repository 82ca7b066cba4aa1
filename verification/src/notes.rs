//! Note and CC bookkeeping of a running fugue: a bitset of sounding
//! (channel, note) pairs and the per-lane "last CC value" table.

use vstd::prelude::*;

verus! {

/// Number of MIDI channels tracked.
pub const NUM_CHANNELS: usize = 16;

/// Number of notes (and controllers) per channel.
pub const NOTES_PER_CHANNEL: usize = 128;

/// Whether bit `bit` of `word` is set.
pub open spec fn bit_set(word: u64, bit: u64) -> bool {
    (word >> bit) & 1u64 == 1u64
}

/// Bitset of sounding notes: 16 channels × 128 notes, two 64-bit words per
/// channel (notes 0–63 in word 0, notes 64–127 in word 1).
pub struct ActiveNotes {
    pub bits: [[u64; 2]; 16],
}

impl ActiveNotes {
    /// Whether `(channel, note)` is marked sounding in this bitset.
    pub open spec fn contains(&self, channel: u8, note: u8) -> bool {
        &&& channel < 16
        &&& note < 128
        &&& bit_set(self.bits[channel as int][note as int / 64], (note % 64) as u64)
    }

    /// The set of sounding `(channel, note)` pairs.
    pub open spec fn notes(&self) -> Set<(u8, u8)> {
        Set::new(|p: (u8, u8)| self.contains(p.0, p.1))
    }

    /// Position of a pair in channel-major order.
    pub open spec fn key(p: (u8, u8)) -> int {
        p.0 as int * 128 + p.1 as int
    }

    /// An empty bitset.
    pub fn new() -> (r: Self)
        ensures
            r.notes() == Set::<(u8, u8)>::empty(),
    {
        let r = ActiveNotes { bits: [[0u64; 2]; 16] };
        proof {
            assert forall|b: u64| !bit_set(0u64, b) by {
                assert((0u64 >> b) & 1u64 == 0u64) by (bit_vector);
            }
            assert forall|p: (u8, u8)| !r.contains(p.0, p.1) by {
                assert(!bit_set(0u64, (p.1 % 64) as u64));
            }
            assert(r.notes() =~= Set::<(u8, u8)>::empty());
        }
        r
    }

    /// Mark a note as sounding. The channel is masked to its low four bits.
    pub fn set_note_active(&mut self, channel: u8, note: u8)
        requires
            note < 128,
        ensures
            final(self).notes() == old(self).notes().insert((channel & 0x0F, note)),
    {
        let ch = (channel & 0x0F) as usize;
        let n = note as usize;
        let idx = n / 64;
        let bit = (n % 64) as u64;
        proof {
            assert(channel & 0x0F < 16) by (bit_vector);
        }
        let old_word = self.bits[ch][idx];
        let new_word = old_word | (1u64 << bit);
        let mut row = self.bits[ch];
        row[idx] = new_word;
        self.bits[ch] = row;
        proof {
            assert forall|b: u64| b < 64 implies bit_set(new_word, b) == (b == bit || bit_set(old_word, b)) by {
                assert(bit < 64);
                assert(new_word == old_word | (1u64 << bit));
                assert(b < 64 && bit < 64 ==> (((old_word | (1u64 << bit)) >> b) & 1u64 == 1u64) == (b == bit || (old_word >> b) & 1u64 == 1u64)) by (bit_vector);
            }
            let target = (channel & 0x0F, note);
            assert forall|p: (u8, u8)| #[trigger] final(self).contains(p.0, p.1) == (old(self).contains(p.0, p.1) || p == target) by {
                if p.0 < 16 && p.1 < 128 {
                    if p.0 as usize == ch && (p.1 / 64) as usize == idx {
                        assert(bit_set(new_word, (p.1 % 64) as u64) == ((p.1 % 64) as u64 == bit || bit_set(old_word, (p.1 % 64) as u64)));
                    }
                }
            }
            assert(final(self).notes() =~= old(self).notes().insert(target));
        }
    }

    /// Mark a note as released. The channel is masked to its low four bits.
    pub fn set_note_inactive(&mut self, channel: u8, note: u8)
        requires
            note < 128,
        ensures
            final(self).notes() == old(self).notes().remove((channel & 0x0F, note)),
    {
        let ch = (channel & 0x0F) as usize;
        let n = note as usize;
        let idx = n / 64;
        let bit = (n % 64) as u64;
        proof {
            assert(channel & 0x0F < 16) by (bit_vector);
        }
        let old_word = self.bits[ch][idx];
        let new_word = old_word & !(1u64 << bit);
        let mut row = self.bits[ch];
        row[idx] = new_word;
        self.bits[ch] = row;
        proof {
            assert forall|b: u64| b < 64 implies bit_set(new_word, b) == (b != bit && bit_set(old_word, b)) by {
                assert(bit < 64);
                assert(new_word == old_word & !(1u64 << bit));
                assert(b < 64 && bit < 64 ==> (((old_word & !(1u64 << bit)) >> b) & 1u64 == 1u64) == (b != bit && (old_word >> b) & 1u64 == 1u64)) by (bit_vector);
            }
            let target = (channel & 0x0F, note);
            assert forall|p: (u8, u8)| #[trigger] final(self).contains(p.0, p.1) == (old(self).contains(p.0, p.1) && p != target) by {
                if p.0 < 16 && p.1 < 128 {
                    if p.0 as usize == ch && (p.1 / 64) as usize == idx {
                        assert(bit_set(new_word, (p.1 % 64) as u64) == ((p.1 % 64) as u64 != bit && bit_set(old_word, (p.1 % 64) as u64)));
                    }
                }
            }
            assert(final(self).notes() =~= old(self).notes().remove(target));
        }
    }

    /// Whether a note is currently sounding. The channel is masked to its low
    /// four bits.
    pub fn is_note_active(&self, channel: u8, note: u8) -> (r: bool)
        requires
            note < 128,
        ensures
            r == self.notes().contains((channel & 0x0F, note)),
    {
        let ch = (channel & 0x0F) as usize;
        let n = note as usize;
        let idx = n / 64;
        let bit = (n % 64) as u64;
        proof {
            assert(channel & 0x0F < 16) by (bit_vector);
        }
        let word = self.bits[ch][idx];
        proof {
            assert(bit < 64 ==> (((word & (1u64 << bit)) != 0) == ((word >> bit) & 1u64 == 1u64))) by (bit_vector);
        }
        (word & (1u64 << bit)) != 0
    }

    /// All sounding notes as `(channel, note)` pairs, in channel-major,
    /// ascending note order.
    pub fn get_active_notes(&self) -> (r: Vec<(u8, u8)>)
        ensures
            forall|p: (u8, u8)| r@.contains(p) <==> self.notes().contains(p),
            forall|i: int, j: int| 0 <= i < j < r@.len() ==> Self::key(r@[i]) < Self::key(r@[j]),
    {
        let mut notes: Vec<(u8, u8)> = Vec::new();
        let mut ch: usize = 0;
        while ch < 16
            invariant
                ch <= 16,
                forall|p: (u8, u8)| notes@.contains(p) <==> (self.contains(p.0, p.1) && (p.0 as int) < ch),
                forall|i: int, j: int| 0 <= i < j < notes@.len() ==> Self::key(notes@[i]) < Self::key(notes@[j]),
                forall|i: int| 0 <= i < notes@.len() ==> Self::key(notes@[i]) < ch * 128,
            decreases 16 - ch,
        {
            let mut idx: usize = 0;
            while idx < 2
                invariant
                    ch < 16,
                    idx <= 2,
                    forall|p: (u8, u8)| notes@.contains(p) <==> (self.contains(p.0, p.1) && ((p.0 as int) < ch || (p.0 as int == ch && (p.1 as int) < idx * 64))),
                    forall|i: int, j: int| 0 <= i < j < notes@.len() ==> Self::key(notes@[i]) < Self::key(notes@[j]),
                    forall|i: int| 0 <= i < notes@.len() ==> Self::key(notes@[i]) < ch * 128 + idx * 64,
                decreases 2 - idx,
            {
                let bits = self.bits[ch][idx];
                let base = idx * 64;
                let mut bit: u64 = 0;
                if bits == 0 {
                    proof {
                        assert forall|b: u64| !bit_set(bits, b) by {
                            assert(bits == 0 ==> (bits >> b) & 1u64 == 0) by (bit_vector);
                        }
                    }
                    bit = 64;
                }
                while bit < 64
                    invariant
                        ch < 16,
                        idx < 2,
                        base == idx * 64,
                        bits == self.bits[ch as int][idx as int],
                        bit <= 64,
                        forall|p: (u8, u8)| notes@.contains(p) <==> (self.contains(p.0, p.1) && ((p.0 as int) < ch || (p.0 as int == ch && (p.1 as int) < base + bit))),
                        forall|i: int, j: int| 0 <= i < j < notes@.len() ==> Self::key(notes@[i]) < Self::key(notes@[j]),
                        forall|i: int| 0 <= i < notes@.len() ==> Self::key(notes@[i]) < ch * 128 + base + bit,
                    decreases 64 - bit,
                {
                    let is_set = (bits & (1u64 << bit)) != 0;
                    let ghost old_notes = notes@;
                    let ghost old_bit = bit;
                    let note_val: u8 = (base + bit as usize) as u8;
                    proof {
                        assert(bit < 64 ==> (((bits & (1u64 << bit)) != 0) == ((bits >> bit) & 1u64 == 1u64))) by (bit_vector);
                        assert(note_val as int == base + bit);
                        assert(note_val / 64 == idx);
                        assert(note_val % 64 == bit);
                        assert(self.contains(ch as u8, note_val) == is_set);
                    }
                    if is_set {
                        let p = (ch as u8, note_val);
                        notes.push(p);
                        proof {
                            assert forall|q: (u8, u8)| notes@.contains(q) <==> (old_notes.contains(q) || q == p) by {
                                if notes@.contains(q) {
                                    let k = choose|k: int| 0 <= k < notes@.len() && notes@[k] == q;
                                    if k < old_notes.len() {
                                        assert(old_notes[k] == q);
                                    }
                                }
                                if old_notes.contains(q) {
                                    let k = choose|k: int| 0 <= k < old_notes.len() && old_notes[k] == q;
                                    assert(notes@[k] == q);
                                }
                                if q == p {
                                    assert(notes@[notes@.len() - 1] == q);
                                }
                            }
                        }
                    }
                    bit = bit + 1;
                    proof {
                        assert forall|q: (u8, u8)| notes@.contains(q) <==> (self.contains(q.0, q.1) && ((q.0 as int) < ch || (q.0 as int == ch && (q.1 as int) < base + bit))) by {
                            assert(old_notes.contains(q) <==> (self.contains(q.0, q.1) && ((q.0 as int) < ch || (q.0 as int == ch && (q.1 as int) < base + old_bit))));
                            if q.0 as int == ch && q.1 as int == base + old_bit {
                                assert(q == (ch as u8, note_val));
                                if is_set {
                                    assert(notes@.contains(q));
                                } else {
                                    assert(!self.contains(q.0, q.1));
                                    assert(!old_notes.contains(q));
                                }
                            } else if is_set {
                                assert(q != (ch as u8, note_val));
                            }
                        }
                    }
                }
                idx = idx + 1;
            }
            ch = ch + 1;
        }
        notes
    }

    /// Release every note.
    pub fn clear_active_notes(&mut self)
        ensures
            final(self).notes() == Set::<(u8, u8)>::empty(),
    {
        *self = Self::new();
    }
}

/// A fresh "last CC value" table: no CC has been sent on any of the
/// 16 × 128 (channel, controller) lanes.
pub fn default_cc_state() -> (r: [[Option<u8>; 128]; 16])
    ensures
        forall|ch: int, cc: int| 0 <= ch < 16 && 0 <= cc < 128 ==> r[ch][cc] is None,
{
    let row: [Option<u8>; 128] = [None; 128];
    let r: [[Option<u8>; 128]; 16] = [row; 16];
    r
}

} // verus!

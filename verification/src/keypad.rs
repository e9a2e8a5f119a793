use vstd::prelude::*;

verus! {

/// Number of keys on the hex keypad.
pub const NUM_KEYS: u16 = 16;

/// 16-key input state packed as a bitmask: bit `i` set means key `i` is
/// currently held down. The host overwrites it wholesale on each input
/// refresh; the interpreter only reads it.
pub struct Keypad {
    keys: u16,
}

impl View for Keypad {
    type V = u16;

    closed spec fn view(&self) -> u16 {
        self.keys
    }
}

/// Key `k` is down in the mask `keys`.
pub open spec fn key_down(keys: u16, k: u16) -> bool {
    (keys >> k) & 1 == 1
}

/// Index of the lowest set bit at or above `i`, or 16 when none is.
pub open spec fn first_key_from(keys: u16, i: int) -> int
    decreases 16 - i,
{
    if i < 0 || i >= 16 {
        16
    } else if key_down(keys, i as u16) {
        i
    } else {
        first_key_from(keys, i + 1)
    }
}

/// Index of the lowest pressed key; 16 when no key is pressed.
pub open spec fn first_key(keys: u16) -> int {
    first_key_from(keys, 0)
}

/// A nonzero mask has at least one key down among indices 0-15.
proof fn lemma_nonzero_has_key(keys: u16)
    requires
        keys != 0,
    ensures
        exists|k: u16| k < 16 && key_down(keys, k),
{
    assert(key_down(keys, 0) || key_down(keys, 1) || key_down(keys, 2) || key_down(keys, 3)
        || key_down(keys, 4) || key_down(keys, 5) || key_down(keys, 6) || key_down(keys, 7)
        || key_down(keys, 8) || key_down(keys, 9) || key_down(keys, 10) || key_down(keys, 11)
        || key_down(keys, 12) || key_down(keys, 13) || key_down(keys, 14) || key_down(
        keys,
        15,
    )) by (bit_vector)
        requires
            keys != 0,
    ;
}

/// `first_key_from(keys, i)` finds the lowest key down at or above `i`, or
/// 16 when there is none.
proof fn lemma_first_key_from(keys: u16, i: int)
    requires
        0 <= i <= 16,
    ensures
        i <= first_key_from(keys, i) <= 16,
        first_key_from(keys, i) < 16 ==> key_down(keys, first_key_from(keys, i) as u16),
        forall|j: int| i <= j < first_key_from(keys, i) ==> !(#[trigger] key_down(keys, j as u16)),
        first_key_from(keys, i) == 16 ==> (forall|j: int|
            i <= j < 16 ==> !(#[trigger] key_down(keys, j as u16))),
    decreases 16 - i,
{
    if i < 16 && !key_down(keys, i as u16) {
        lemma_first_key_from(keys, i + 1);
    }
}

/// On a nonzero mask, `first_key` names a pressed key and no smaller index
/// is pressed: the tie-break is toward the smallest index.
pub proof fn lemma_first_key(keys: u16)
    requires
        keys != 0,
    ensures
        0 <= first_key(keys) < 16,
        key_down(keys, first_key(keys) as u16),
        forall|j: u16| j < first_key(keys) ==> !key_down(keys, j),
{
    lemma_first_key_from(keys, 0);
    if first_key(keys) == 16 {
        lemma_nonzero_has_key(keys);
        let k = choose|k: u16| k < 16 && key_down(keys, k);
        assert(!key_down(keys, k as int as u16));
        assert(false);
    }
    assert forall|j: u16| j < first_key(keys) implies !key_down(keys, j) by {
        assert(!key_down(keys, j as int as u16));
    }
}

impl Keypad {
    pub fn new() -> (k: Keypad)
        ensures
            k@ == 0,
    {
        Keypad { keys: 0 }
    }

    /// Key `key_index` is currently held down.
    pub fn is_pressed(&self, key_index: u8) -> (r: bool)
        requires
            key_index < NUM_KEYS,
        ensures
            r == key_down(self@, key_index as u16),
    {
        let k = key_index as u16;
        let r = (self.keys & (1u16 << k)) > 0;
        proof {
            let keys = self.keys;
            assert(((keys & (1u16 << k)) > 0) == ((keys >> k) & 1 == 1)) by (bit_vector)
                requires
                    k < 16,
            ;
        }
        r
    }

    /// No key is currently held down.
    pub fn no_keys_pressed(&self) -> (r: bool)
        ensures
            r == (self@ == 0),
    {
        self.keys == 0
    }

    /// Index of the lowest pressed key; ties break toward the smallest
    /// index.
    pub fn get_first_key_pressed(&self) -> (r: u8)
        requires
            self@ != 0,
        ensures
            r as int == first_key(self@),
            r < NUM_KEYS,
            key_down(self@, r as u16),
            forall|j: u16| j < r ==> !key_down(self@, j),
    {
        let keys = self.keys;
        let mut i: u16 = 0;
        while i < 16
            invariant
                i <= 16,
                keys == self@,
                keys != 0,
                first_key(keys) == first_key_from(keys, i as int),
                forall|j: u16| j < i ==> !key_down(keys, j),
            decreases 16 - i,
        {
            if (keys >> i) & 1 == 1 {
                return i as u8;
            }
            i += 1;
        }
        proof {
            lemma_nonzero_has_key(keys);
            let k = choose|k: u16| k < 16 && key_down(keys, k);
            assert(false);
        }
        0
    }

    /// Press (`pressed == true`) or release one key, leaving every other key
    /// as it was.
    pub fn set_key(&mut self, key_index: u8, pressed: bool)
        requires
            key_index < NUM_KEYS,
        ensures
            final(self)@ == (if pressed {
                old(self)@ | (1u16 << (key_index as u16))
            } else {
                old(self)@ & !(1u16 << (key_index as u16))
            }),
            forall|k: u16|
                k < NUM_KEYS ==> key_down(final(self)@, k) == (if k == key_index as u16 {
                    pressed
                } else {
                    key_down(old(self)@, k)
                }),
    {
        let idx = key_index as u16;
        let ok = self.keys;
        if pressed {
            self.keys = ok | (1u16 << idx);
            proof {
                let nk = self.keys;
                assert(forall|k: u16|
                    k < 16 ==> ((nk >> k) & 1 == 1) == (if k == idx {
                        true
                    } else {
                        (ok >> k) & 1 == 1
                    })) by (bit_vector)
                    requires
                        idx < 16,
                        nk == ok | (1u16 << idx),
                ;
            }
        } else {
            self.keys = ok & !(1u16 << idx);
            proof {
                let nk = self.keys;
                assert(forall|k: u16|
                    k < 16 ==> ((nk >> k) & 1 == 1) == (if k == idx {
                        false
                    } else {
                        (ok >> k) & 1 == 1
                    })) by (bit_vector)
                    requires
                        idx < 16,
                        nk == ok & !(1u16 << idx),
                ;
            }
        }
    }

    /// Overwrite the whole mask with one host input refresh.
    pub fn set_keys(&mut self, keys: u16)
        ensures
            final(self)@ == keys,
    {
        self.keys = keys;
    }
}

} // verus!

use vstd::prelude::*;

use crate::nibble::Nibble;

verus! {

/// One key of the hex keypad, packing two bits of state: whether the key
/// is currently held down, and whether its next release should be tracked
/// as a pending key-press event.
#[derive(Clone, Copy, Debug, PartialEq, Eq, Structural)]
pub struct Key(pub(crate) u8);

impl Key {
    /// Whether the key is currently held down.
    pub open(crate) spec fn down(self) -> bool {
        self.0 & 0x1 == 1
    }

    /// Whether the key's next release is to be reported.
    pub open(crate) spec fn trackable(self) -> bool {
        self.0 & 0x2 == 2
    }

    /// A key that is up and not tracked.
    pub fn new() -> (r: Self)
        ensures
            !r.down(),
            !r.trackable(),
    {
        proof {
            assert(0u8 & 0x1 != 1 && 0u8 & 0x2 != 2) by (bit_vector);
        }
        Self(0)
    }

    pub fn is_down(&self) -> (r: bool)
        ensures
            r == self.down(),
    {
        proof {
            let v = self.0;
            assert((v & 0x1 >= 1) == (v & 0x1 == 1)) by (bit_vector);
        }
        self.0 & 0x1 >= 1
    }

    pub fn set_is_down(&mut self, is_down: bool)
        ensures
            final(self).down() == is_down,
            final(self).trackable() == old(self).trackable(),
    {
        let bit: u8 = if is_down { 1 } else { 0 };
        proof {
            let v = self.0;
            assert(bit <= 1 ==> ((((v & 0xFE) | bit) & 0x1 == 1) == (bit == 1)) && (((v & 0xFE)
                | bit) & 0x2 == v & 0x2)) by (bit_vector);
        }
        self.0 = (self.0 & 0xFE) | bit;
    }

    pub fn is_trackable(&self) -> (r: bool)
        ensures
            r == self.trackable(),
    {
        proof {
            let v = self.0;
            assert((v & 0x2 >= 1) == (v & 0x2 == 2)) by (bit_vector);
        }
        self.0 & 0x2 >= 1
    }

    pub fn set_is_trackable(&mut self, is_trackable: bool)
        ensures
            final(self).trackable() == is_trackable,
            final(self).down() == old(self).down(),
    {
        let bit: u8 = if is_trackable { 2 } else { 0 };
        proof {
            let v = self.0;
            assert((bit == 0 || bit == 2) ==> ((((v & 0xFD) | bit) & 0x2 == 2) == (bit == 2)) && (((v
                & 0xFD) | bit) & 0x1 == v & 0x1)) by (bit_vector);
        }
        self.0 = (self.0 & 0xFD) | bit;
    }
}

/// The sixteen keys of the hex keypad, indexed by `Nibble`.
#[derive(Debug, PartialEq, Eq)]
pub struct Keyboard {
    pub(crate) keys: Vec<Key>,
}

impl Keyboard {
    #[verifier::type_invariant]
    pub(crate) open spec fn type_inv(self) -> bool {
        self.keys.len() == 16
    }

    /// The key states, for use in specifications.
    pub open(crate) spec fn contents(&self) -> Seq<Key> {
        self.keys@
    }

    /// A keypad with every key up and untracked.
    pub fn new() -> (r: Self)
        ensures
            r.contents().len() == 16,
            forall|i: int|
                0 <= i < 16 ==> !(#[trigger] r.contents()[i]).down() && !r.contents()[i].trackable(),
    {
        let mut keys: Vec<Key> = Vec::new();
        let mut i: usize = 0;
        while i < 16
            invariant
                i <= 16,
                keys.len() == i,
                forall|j: int|
                    0 <= j < i ==> !(#[trigger] keys@[j]).down() && !keys@[j].trackable(),
            decreases 16 - i,
        {
            keys.push(Key::new());
            i = i + 1;
        }
        Self { keys }
    }

    /// The state of key `index`.
    pub fn get_key(&self, index: Nibble) -> (r: Key)
        ensures
            r == self.contents()[index.value() as int],
    {
        proof {
            use_type_invariant(self);
            use_type_invariant(&index);
        }
        self.keys[index.as_usize()]
    }

    /// Replaces the state of key `index`, leaving the others unchanged.
    pub fn set_key(&mut self, index: Nibble, key: Key)
        ensures
            final(self).contents() == old(self).contents().update(index.value() as int, key),
    {
        proof {
            use_type_invariant(&*self);
            use_type_invariant(&index);
        }
        let i = index.as_usize();
        self.keys[i] = key;
    }

    /// A copy of the sixteen key states, for external inspection.
    pub fn iter(&self) -> (r: Vec<Key>)
        ensures
            r@ == self.contents(),
    {
        proof {
            use_type_invariant(self);
        }
        let mut out: Vec<Key> = Vec::new();
        let mut i: usize = 0;
        while i < 16
            invariant
                self.type_inv(),
                i <= 16,
                out.len() == i,
                forall|j: int| 0 <= j < i ==> out@[j] == self.contents()[j],
            decreases 16 - i,
        {
            out.push(self.keys[i]);
            i = i + 1;
        }
        proof {
            assert(out@ =~= self.contents());
        }
        out
    }
}

} // verus!

use vstd::prelude::*;

use crate::address::Address;
use crate::memory::Memory;

verus! {

/// The memory image after copying `image` over `mem` starting at
/// `load_point`.
pub open spec fn loaded_memory(mem: Seq<u8>, load_point: int, image: Seq<u8>) -> Seq<u8> {
    Seq::new(
        mem.len(),
        |i: int|
            if load_point <= i < load_point + image.len() {
                image[i - load_point]
            } else {
                mem[i]
            },
    )
}

/// A loadable program: a capability that copies a byte image into memory
/// and names the address at which execution starts.
pub trait Executable: Sized {
    /// Whether the image fits where it is to be loaded.
    spec fn wf(&self) -> bool;

    /// The program bytes.
    spec fn image(&self) -> Seq<u8>;

    /// The address at which the image is copied.
    spec fn load_point(&self) -> int;

    /// The address at which execution starts.
    spec fn entry(&self) -> Address;

    fn load_into_memory(&self, memory: &mut Memory)
        requires
            self.wf(),
        ensures
            final(memory).contents() == loaded_memory(
                old(memory).contents(),
                self.load_point(),
                self.image(),
            ),
    ;

    fn get_entry_point(&self) -> (r: Address)
        ensures
            r == self.entry(),
    ;
}

/// Copies `image` into `memory` starting at `load_point`; the shared body
/// of the concrete loaders.
fn copy_image(memory: &mut Memory, load_point: Address, image: &Vec<u8>)
    requires
        load_point.value() + image@.len() <= 4096,
    ensures
        final(memory).contents() == loaded_memory(
            old(memory).contents(),
            load_point.value() as int,
            image@,
        ),
{
    proof {
        use_type_invariant(&load_point);
        use_type_invariant(&*memory);
    }
    let ghost m0 = memory.contents();
    let ghost lp = load_point.value() as int;
    let mut i: usize = 0;
    while i < image.len()
        invariant
            load_point.value() + image@.len() <= 4096,
            lp == load_point.value() as int,
            i <= image@.len(),
            memory.contents() == loaded_memory(m0, lp, image@.take(i as int)),
            m0.len() == 4096,
        decreases image@.len() - i,
    {
        let a = load_point.add_offset(i as i16);
        proof {
            vstd::arithmetic::div_mod::lemma_small_mod((lp + i) as nat, 4096);
        }
        memory.write(a, image[i]);
        proof {
            assert(memory.contents() =~= loaded_memory(m0, lp, image@.take(i + 1)));
        }
        i = i + 1;
    }
    proof {
        assert(image@.take(image@.len() as int) =~= image@);
    }
}

/// A program image together with the address it is to be loaded at,
/// which is also the entry address it reports; programs conventionally
/// load at address 512.
pub struct BaseExecutable {
    pub(crate) image: Vec<u8>,
    pub(crate) load_point: Address,
}

impl BaseExecutable {
    pub fn new(image: Vec<u8>, load_point: Address) -> (r: Self)
        ensures
            r.image() == image@,
            r.load_point() == load_point.value() as int,
            r.wf() <==> load_point.value() + image@.len() <= 4096,
            r.entry() == load_point,
    {
        Self { image, load_point }
    }
}

impl Executable for BaseExecutable {
    closed spec fn wf(&self) -> bool {
        self.load_point.value() + self.image@.len() <= 4096
    }

    closed spec fn image(&self) -> Seq<u8> {
        self.image@
    }

    closed spec fn load_point(&self) -> int {
        self.load_point.value() as int
    }

    closed spec fn entry(&self) -> Address {
        self.load_point
    }

    fn load_into_memory(&self, memory: &mut Memory) {
        copy_image(memory, self.load_point, &self.image);
    }

    fn get_entry_point(&self) -> (r: Address) {
        self.load_point
    }
}

/// A program image loaded at the conventional start address 512, which is
/// also its entry point.
pub struct Chip8BaseExecutable {
    pub(crate) image: Vec<u8>,
}

impl Chip8BaseExecutable {
    pub fn new(image: Vec<u8>) -> (r: Self)
        ensures
            r.image() == image@,
            r.load_point() == 512,
            r.wf() <==> 512 + image@.len() <= 4096,
            r.entry().value() == 512,
    {
        Self { image }
    }
}

impl Executable for Chip8BaseExecutable {
    closed spec fn wf(&self) -> bool {
        512 + self.image@.len() <= 4096
    }

    closed spec fn image(&self) -> Seq<u8> {
        self.image@
    }

    closed spec fn load_point(&self) -> int {
        512
    }

    closed spec fn entry(&self) -> Address {
        Address(512)
    }

    fn load_into_memory(&self, memory: &mut Memory) {
        let load_point = Address::new::<512>();
        copy_image(memory, load_point, &self.image);
    }

    fn get_entry_point(&self) -> (r: Address) {
        Address::new::<512>()
    }
}

} // verus!

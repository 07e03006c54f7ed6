//! The four kinds of tree entry and their permission codes.

use vstd::prelude::*;
use crate::numeral::digits;

verus! {

/// Permission code of a regular file, `100644` in base eight.
pub const REGULAR_FILE: u32 = 0o100644;

/// Permission code of an executable file, `100755` in base eight.
pub const EXECUTABLE_FILE: u32 = 0o100755;

/// Permission code of a symbolic link, `120000` in base eight.
pub const SYMBOLIC_LINK: u32 = 0o120000;

/// Permission code of a directory, `40000` in base eight.
pub const DIRECTORY: u32 = 0o040000;

/// What kind of thing a tree entry names.
#[derive(Debug, PartialEq, Eq, Structural, Clone, Copy)]
pub enum Perms {
    RegularFile,
    ExecutableFile,
    SymbolicLink,
    Directory,
}

impl Perms {
    /// The permission code of this kind.
    pub open spec fn spec_code(self) -> u32 {
        match self {
            Perms::RegularFile => REGULAR_FILE,
            Perms::ExecutableFile => EXECUTABLE_FILE,
            Perms::SymbolicLink => SYMBOLIC_LINK,
            Perms::Directory => DIRECTORY,
        }
    }

    /// The kind that a permission code stands for, if it is one of the four.
    pub open spec fn spec_from_code(code: nat) -> Option<Perms> {
        if code == REGULAR_FILE {
            Some(Perms::RegularFile)
        } else if code == EXECUTABLE_FILE {
            Some(Perms::ExecutableFile)
        } else if code == SYMBOLIC_LINK {
            Some(Perms::SymbolicLink)
        } else if code == DIRECTORY {
            Some(Perms::Directory)
        } else {
            None
        }
    }

    /// The code as it is written in a tree: base eight, no leading zeros.
    pub open spec fn rendered(self) -> Seq<u8> {
        digits(self.spec_code() as nat, 8)
    }

    /// The written form of each code, digit by digit.
    pub proof fn lemma_rendered(self)
        ensures
            self == Perms::RegularFile ==> self.rendered() =~= seq![49u8, 48, 48, 54, 52, 52],
            self == Perms::ExecutableFile ==> self.rendered() =~= seq![49u8, 48, 48, 55, 53, 53],
            self == Perms::SymbolicLink ==> self.rendered() =~= seq![49u8, 50, 48, 48, 48, 48],
            self == Perms::Directory ==> self.rendered() =~= seq![52u8, 48, 48, 48, 48],
            Perms::spec_from_code(self.spec_code() as nat) == Some(self),
    {
        reveal_with_fuel(digits, 7);
    }

    /// The permission code of this kind.
    #[verifier::when_used_as_spec(spec_code)]
    pub fn code(self) -> (c: u32)
        ensures
            c == self.spec_code(),
    {
        match self {
            Perms::RegularFile => REGULAR_FILE,
            Perms::ExecutableFile => EXECUTABLE_FILE,
            Perms::SymbolicLink => SYMBOLIC_LINK,
            Perms::Directory => DIRECTORY,
        }
    }

    /// Finds the kind for a permission code; any other number is refused.
    pub fn from_code(code: u32) -> (r: Option<Perms>)
        ensures
            r == Perms::spec_from_code(code as nat),
    {
        if code == REGULAR_FILE {
            Some(Perms::RegularFile)
        } else if code == EXECUTABLE_FILE {
            Some(Perms::ExecutableFile)
        } else if code == SYMBOLIC_LINK {
            Some(Perms::SymbolicLink)
        } else if code == DIRECTORY {
            Some(Perms::Directory)
        } else {
            None
        }
    }

    /// How many bytes the code takes in a tree.
    pub fn rendered_size(&self) -> (size: usize)
        ensures
            size == self.rendered().len(),
            size == if *self == Perms::Directory { 5usize } else { 6usize },
    {
        let me = self.code();
        proof {
            self.lemma_rendered();
            vstd::std_specs::bits::axiom_u32_leading_zeros(me);
            let z = vstd::std_specs::bits::u32_leading_zeros(me);
            let below: u32 = (31 - z) as u32;
            let at: u32 = (32 - z) as u32;
            assert(z == 16 || z == 17) by (bit_vector)
                requires
                    me == 0o100644u32 || me == 0o100755u32 || me == 0o120000u32 || me
                        == 0o040000u32,
                    z <= 32,
                    below == (31 - z) as u32,
                    at == (32 - z) as u32,
                    z < 32 ==> (me >> below) & 1u32 != 0u32,
                    me >> at == 0,
            ;
            assert(z == 17 <==> me == 0o040000u32) by (bit_vector)
                requires
                    me == 0o100644u32 || me == 0o100755u32 || me == 0o120000u32 || me
                        == 0o040000u32,
                    z == 16 || z == 17,
                    below == (31 - z) as u32,
                    (me >> below) & 1u32 != 0u32,
            ;
        }
        let size = (u32::BITS - me.leading_zeros() + 2) / 3;
        size as usize
    }
}

} // verus!

use vstd::prelude::*;

verus! {

/// Where a number source's name stands with respect to its arguments.
#[derive(Clone, Copy, Debug, PartialEq, Eq, Structural)]
pub enum NumberSourceLayout {
    Prefix,
    Infix,
    Postfix,
    Function,
}

/// The byte a layout is stored as.
pub open spec fn layout_code(l: NumberSourceLayout) -> u8 {
    match l {
        NumberSourceLayout::Prefix => 1,
        NumberSourceLayout::Infix => 2,
        NumberSourceLayout::Postfix => 3,
        NumberSourceLayout::Function => 4,
    }
}

/// The layout a byte stands for, if it stands for one.
pub open spec fn layout_of_code(b: u8) -> Option<NumberSourceLayout> {
    if b == 1 {
        Some(NumberSourceLayout::Prefix)
    } else if b == 2 {
        Some(NumberSourceLayout::Infix)
    } else if b == 3 {
        Some(NumberSourceLayout::Postfix)
    } else if b == 4 {
        Some(NumberSourceLayout::Function)
    } else {
        None
    }
}

impl Default for NumberSourceLayout {
    fn default() -> (r: NumberSourceLayout)
        ensures
            r == NumberSourceLayout::Function,
    {
        NumberSourceLayout::Function
    }
}

impl NumberSourceLayout {
    /// Appends the layout's byte to `bytes`.
    pub fn serialize(&self, bytes: &mut Vec<u8>)
        ensures
            final(bytes)@ == old(bytes)@.push(layout_code(*self)),
    {
        let b: u8 = match self {
            NumberSourceLayout::Prefix => 1,
            NumberSourceLayout::Infix => 2,
            NumberSourceLayout::Postfix => 3,
            NumberSourceLayout::Function => 4,
        };
        bytes.push(b);
    }

    /// Reads a layout from the byte at `*position`, moving past it. Fails,
    /// leaving the position, where no byte is left or the byte stands for
    /// no layout.
    pub fn deserialize(bytes: &Vec<u8>, position: &mut usize) -> (r: Result<NumberSourceLayout, ()>)
        ensures
            *old(position) < bytes@.len() && layout_of_code(bytes@[*old(position) as int]) is Some
                ==> r == Ok::<NumberSourceLayout, ()>(
                layout_of_code(bytes@[*old(position) as int])->0,
            ) && *final(position) == *old(position) + 1,
            !(*old(position) < bytes@.len() && layout_of_code(bytes@[*old(position) as int]) is Some)
                ==> r is Err && *final(position) == *old(position),
    {
        if *position >= bytes.len() {
            return Err(());
        }
        let b = bytes[*position];
        let r = if b == 1 {
            NumberSourceLayout::Prefix
        } else if b == 2 {
            NumberSourceLayout::Infix
        } else if b == 3 {
            NumberSourceLayout::Postfix
        } else if b == 4 {
            NumberSourceLayout::Function
        } else {
            return Err(());
        };
        *position = *position + 1;
        Ok(r)
    }
}

/// Reading a layout where it was written gives it back, and moves past
/// exactly the byte that was written.
pub proof fn law_layout_round_trip(l: NumberSourceLayout, before: Seq<u8>)
    ensures
        layout_of_code(layout_code(l)) == Some(l),
        before.push(layout_code(l))[before.len() as int] == layout_code(l),
{
}

/// A byte that stands for a layout is that layout's byte.
pub proof fn law_layout_code_unique(b: u8)
    ensures
        layout_of_code(b) matches Some(l) ==> layout_code(l) == b,
{
}

} // verus!

//! Surface-local color palette overrides.

use vstd::prelude::*;

use crate::escape::{std_color_slot, Rgb, StdColor};

verus! {

/// Number of logical color slots tracked by the surface: 256 indexed colors
/// followed by the foreground, background, cursor, dim and bright roles.
pub const COUNT: usize = 269;

/// Dynamic color overrides, one optional RGB value per palette slot.
#[derive(Debug, PartialEq, Eq)]
pub struct Colors {
    slots: Vec<Option<Rgb>>,
}

impl View for Colors {
    type V = Seq<Option<Rgb>>;

    closed spec fn view(&self) -> Seq<Option<Rgb>> {
        self.slots@
    }
}

impl Colors {
    #[verifier::type_invariant]
    spec fn slots_complete(self) -> bool {
        self.slots@.len() == COUNT
    }

    /// A palette without overrides.
    pub fn new() -> (colors: Self)
        ensures
            colors@ == Seq::new(COUNT as nat, |_i: int| None::<Rgb>),
    {
        let mut slots: Vec<Option<Rgb>> = Vec::new();
        while slots.len() < COUNT
            invariant
                slots@.len() <= COUNT,
                forall|i: int| 0 <= i < slots@.len() ==> slots@[i] is None,
            decreases COUNT - slots@.len(),
        {
            slots.push(None);
        }
        let colors = Colors { slots };
        proof {
            assert(colors@ =~= Seq::new(COUNT as nat, |_i: int| None::<Rgb>));
        }
        colors
    }

    /// Override stored in slot `index`.
    pub fn get(&self, index: usize) -> (color: Option<Rgb>)
        requires
            index < COUNT,
        ensures
            self@.len() == COUNT,
            color == self@[index as int],
    {
        proof {
            use_type_invariant(self);
        }
        self.slots[index]
    }

    /// Replace the override stored in slot `index`.
    pub fn set(&mut self, index: usize, color: Option<Rgb>)
        requires
            index < COUNT,
        ensures
            final(self)@ == old(self)@.update(index as int, color),
    {
        proof {
            use_type_invariant(&*self);
        }
        self.slots[index] = color;
    }

    /// Override stored for a named color.
    pub fn get_std(&self, color: StdColor) -> (rgb: Option<Rgb>)
        ensures
            rgb == self@[std_color_slot(color) as int],
    {
        self.get(color.slot())
    }

    /// Replace the override stored for a named color.
    pub fn set_std(&mut self, color: StdColor, rgb: Option<Rgb>)
        ensures
            final(self)@ == old(self)@.update(std_color_slot(color) as int, rgb),
    {
        self.set(color.slot(), rgb);
    }
}

impl Clone for Colors {
    fn clone(&self) -> (copy: Self)
        ensures
            copy@ == self@,
    {
        proof {
            use_type_invariant(self);
        }
        let mut slots: Vec<Option<Rgb>> = Vec::new();
        let mut i: usize = 0;
        while i < self.slots.len()
            invariant
                i <= self.slots@.len(),
                self.slots@.len() == COUNT,
                slots@ == self.slots@.subrange(0, i as int),
            decreases self.slots@.len() - i,
        {
            slots.push(self.slots[i]);
            i = i + 1;
            proof {
                assert(slots@ =~= self.slots@.subrange(0, i as int));
            }
        }
        proof {
            assert(slots@ =~= self.slots@);
        }
        Colors { slots }
    }
}

impl Default for Colors {
    fn default() -> (colors: Self)
        ensures
            colors@ == Seq::new(COUNT as nat, |_i: int| None::<Rgb>),
    {
        Colors::new()
    }
}

} // verus!

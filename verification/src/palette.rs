//! Colouring by a prepared list of colours.

use vstd::prelude::*;
use crate::color::Color;
use crate::escape::EscapeResult;

verus! {

/// `rand::random::<u8>`: some byte. Nothing is known of it beforehand, and
/// two calls need not agree. The generator behind it is seeded from the
/// system's random source and panics where that source fails; no argument
/// decides that, so it counts with the failures of the machine.
#[verifier::external_body]
fn random_channel() -> (level: u8) {
    rand::random::<u8>()
}

/// An ordered list of at least one colour for the points that escape, and
/// one backdrop colour for those that do not.
pub struct Palette {
    options: Vec<Color>,
    backdrop: Color,
}

/// Which entry of a palette of `len` colours a result takes: the whole part
/// of its continuous index, counted round the list. A bounded point takes
/// none.
pub open spec fn slot(result: EscapeResult, len: nat) -> Option<nat> {
    match result {
        EscapeResult::Escaped(index) => Some(index.clamped(usize::MAX as nat) % len),
        EscapeResult::Bounded => None,
    }
}

impl Palette {
    #[verifier::type_invariant]
    spec fn populated(self) -> bool {
        self.options@.len() > 0
    }

    /// The colours for escaped points, in order.
    pub closed spec fn entries(self) -> Seq<Color> {
        self.options@
    }

    /// The colour for bounded points.
    pub closed spec fn ground(self) -> Color {
        self.backdrop
    }

    /// The colour that the palette gives a result.
    pub open spec fn color_of(self, result: EscapeResult) -> Color {
        match slot(result, self.entries().len()) {
            Some(i) => self.entries()[i as int],
            None => self.ground(),
        }
    }

    /// A palette of the given colours; none where no colour is given.
    pub fn new(options: Vec<Color>, backdrop: Color) -> (made: Option<Palette>)
        ensures
            made.is_some() == (options@.len() > 0),
            made.is_some() ==> made.unwrap().entries() == options@ && made.unwrap().ground()
                == backdrop,
    {
        if options.len() == 0 {
            None
        } else {
            Some(Palette { options, backdrop })
        }
    }

    /// A palette of `count` colours drawn at random; none where `count` is
    /// zero.
    pub fn random(count: usize, backdrop: Color) -> (made: Option<Palette>)
        ensures
            made.is_some() == (count > 0),
            made.is_some() ==> made.unwrap().entries().len() == count && made.unwrap().ground()
                == backdrop,
    {
        let mut options: Vec<Color> = Vec::new();
        let mut i: usize = 0;
        while i < count
            invariant
                i <= count,
                options@.len() == i,
            decreases count - i,
        {
            let r: u8 = random_channel();
            let g: u8 = random_channel();
            let b: u8 = random_channel();
            options.push(Color { r, g, b });
            i = i + 1;
        }
        Palette::new(options, backdrop)
    }

    /// The number of colours for escaped points: at least one.
    pub fn len(&self) -> (n: usize)
        ensures
            n == self.entries().len(),
            n > 0,
    {
        proof {
            use_type_invariant(self);
        }
        self.options.len()
    }

    /// The colour at a position of the list, if there is one.
    pub fn option(&self, i: usize) -> (c: Option<Color>)
        ensures
            c == if i < self.entries().len() {
                Some(self.entries()[i as int])
            } else {
                None
            },
    {
        if i < self.options.len() {
            Some(self.options[i])
        } else {
            None
        }
    }

    /// The colour for bounded points.
    pub fn backdrop(&self) -> (c: Color)
        ensures
            c == self.ground(),
    {
        self.backdrop
    }

    /// The colour of a result: the backdrop for a bounded point; for an
    /// escaped one the entry at the whole part of its continuous index,
    /// counted round the list.
    pub fn color_for(&self, result: &EscapeResult) -> (c: Color)
        ensures
            c == self.color_of(*result),
    {
        proof {
            use_type_invariant(self);
        }
        match result {
            EscapeResult::Bounded => self.backdrop,
            EscapeResult::Escaped(index) => {
                let at: usize = index.to_index() % self.options.len();
                self.options[at]
            },
        }
    }
}

/// Which points take the backdrop is settled by the results alone: a
/// result takes an entry of the list exactly when it escaped, whatever the
/// palette holds.
pub proof fn lemma_backdrop_for_bounded_only(result: EscapeResult, len: nat)
    ensures
        slot(result, len).is_none() <==> result == EscapeResult::Bounded,
{
}

/// Two palettes of equal length send a result to the same place: they can
/// differ in the colours they hold, not in which entry a point takes.
pub proof fn lemma_slot_shared(first: Palette, second: Palette, result: EscapeResult)
    requires
        first.entries().len() == second.entries().len(),
    ensures
        slot(result, first.entries().len()) == slot(result, second.entries().len()),
        slot(result, first.entries().len()) matches Some(i) ==> first.color_of(result)
            == first.entries()[i as int] && second.color_of(result) == second.entries()[i as int],
        slot(result, first.entries().len()).is_none() ==> first.color_of(result) == first.ground()
            && second.color_of(result) == second.ground(),
{
}

/// Every colour that a palette gives is one that it holds: an entry of
/// the list or the backdrop.
pub proof fn lemma_color_from_palette(palette: Palette, result: EscapeResult)
    requires
        palette.entries().len() > 0,
    ensures
        palette.color_of(result) == palette.ground() || palette.entries().contains(
            palette.color_of(result),
        ),
{
    match slot(result, palette.entries().len()) {
        Some(i) => {
            assert(0 <= i < palette.entries().len()) by (nonlinear_arith)
                requires
                    palette.entries().len() > 0,
                    i == result->Escaped_0.clamped(usize::MAX as nat) % palette.entries().len(),
            ;
        },
        None => {},
    }
}

} // verus!

//! The state of the two dialogue widgets: the box that types out the line
//! being spoken, and the box that lists the options to choose from.

use vstd::prelude::*;
use crate::grapheme::{graphemes_of, styled_graphemes};
use crate::style::{StyledGrapheme, StyledSegment, StyledText};
use crate::typewriter::RevealState;
use crate::wrap::{wrap, wrapped_rows};

verus! {

/// The dialogue box: who speaks, the line that is spoken, and how far the
/// typewriter effect has revealed it.
pub struct DialogBoxWidget {
    /// Name of the speaking character.
    character: Option<String>,
    /// The line being spoken, as styled segments.
    text: Vec<StyledSegment>,
    /// The clusters of the line.
    graphemes: Vec<StyledGrapheme>,
    /// How many clusters are revealed.
    typewriter_index: usize,
    /// Time since the last cluster was revealed.
    elapsed: u128,
    /// Time between two clusters.
    speed: u64,
}

impl View for DialogBoxWidget {
    type V = RevealState;

    closed spec fn view(&self) -> RevealState {
        RevealState {
            graphemes: self.graphemes.deep_view(),
            revealed: self.typewriter_index as nat,
            elapsed: self.elapsed as nat,
            interval: self.speed as nat,
        }
    }
}

impl DialogBoxWidget {
    /// The line being spoken.
    pub closed spec fn line(&self) -> Seq<StyledText> {
        self.text.deep_view()
    }

    /// The name of the speaker, if one is set.
    pub closed spec fn speaker(&self) -> Option<Seq<char>> {
        match self.character {
            Some(name) => Some(name@),
            None => None,
        }
    }

    /// What holds of every dialogue box: the clusters are those of the line,
    /// no more of them are revealed than there are, and while some are hidden
    /// the waiting time is short of an interval.
    #[verifier::type_invariant]
    closed spec fn wf(&self) -> bool {
        &&& self@.wf()
        &&& self@.graphemes == styled_graphemes(self.line())
    }

    /// A box for the line `text`, spoken by `character`, that reveals one
    /// cluster every `speed` units of time; with a speed of zero it shows the
    /// whole line at once.
    pub fn new(character: Option<String>, text: Vec<StyledSegment>, speed: u64) -> (widget: Self)
        ensures
            widget@ == RevealState::start(styled_graphemes(text.deep_view()), speed as nat),
            widget@.wf(),
            widget.line() == text.deep_view(),
            widget.speaker() == match character {
                Some(name) => Some(name@),
                None => None,
            },
    {
        let graphemes = graphemes_of(&text);
        let typewriter_index = if speed == 0 {
            graphemes.len()
        } else {
            0
        };
        DialogBoxWidget { character, text, graphemes, typewriter_index, elapsed: 0, speed }
    }

    /// Sets who speaks. The line and its reveal stay as they are.
    pub fn set_character(&mut self, character: Option<String>)
        ensures
            final(self).speaker() == match character {
                Some(name) => Some(name@),
                None => None,
            },
            final(self)@ == old(self)@,
            final(self)@.wf(),
            final(self).line() == old(self).line(),
    {
        proof {
            use_type_invariant(&*self);
        }
        self.character = character
    }

    /// Sets the line that is spoken and starts its reveal from the beginning.
    pub fn set_text(&mut self, text: Vec<StyledSegment>)
        ensures
            final(self)@ == old(self)@.reset(styled_graphemes(text.deep_view())),
            final(self)@.wf(),
            final(self).line() == text.deep_view(),
            final(self).speaker() == old(self).speaker(),
    {
        let graphemes = graphemes_of(&text);
        let typewriter_index = if self.speed == 0 {
            graphemes.len()
        } else {
            0
        };
        let character = match &self.character {
            Some(name) => Some(name.clone()),
            None => None,
        };
        *self = DialogBoxWidget {
            character,
            text,
            graphemes,
            typewriter_index,
            elapsed: 0,
            speed: self.speed,
        };
    }

    /// Whether the whole line is revealed.
    pub fn typewriter_complete(&self) -> (complete: bool)
        ensures
            complete == self@.is_complete(),
    {
        proof {
            use_type_invariant(self);
        }
        self.typewriter_index >= self.graphemes.len()
    }

    /// Reveals the whole line at once.
    pub fn skip_typewriter(&mut self)
        ensures
            final(self)@ == old(self)@.skip(),
            final(self)@.is_complete(),
            final(self)@.wf(),
            final(self).line() == old(self).line(),
            final(self).speaker() == old(self).speaker(),
    {
        proof {
            use_type_invariant(&*self);
        }
        self.typewriter_index = self.graphemes.len();
    }

    /// Lets `delta` units of time pass: every cluster that has come due is
    /// revealed, several in one call where the step is long. A complete
    /// reveal stays as it is.
    pub fn advance(&mut self, delta: u64)
        ensures
            final(self)@ == old(self)@.advance(delta as nat),
            final(self)@.wf(),
            old(self)@.revealed <= final(self)@.revealed <= final(self)@.total(),
            final(self).line() == old(self).line(),
            final(self).speaker() == old(self).speaker(),
    {
        proof {
            use_type_invariant(&*self);
            self@.lemma_advance(delta as nat);
        }
        let total = self.graphemes.len();
        if self.typewriter_index >= total {
            return ;
        }
        let hidden = total - self.typewriter_index;
        let budget: u128 = self.elapsed + delta as u128;
        let interval: u128 = self.speed as u128;
        let ticks: u128 = budget / interval;
        let due: usize = if ticks <= hidden as u128 {
            ticks as usize
        } else {
            hidden
        };
        proof {
            assert(budget == interval * ticks + budget % interval && budget % interval < interval)
                by {
                vstd::arithmetic::div_mod::lemma_fundamental_div_mod(budget as int, interval as int);
                vstd::arithmetic::div_mod::lemma_mod_bound(budget as int, interval as int);
            }
            assert(due * interval <= ticks * interval) by (nonlinear_arith)
                requires
                    0 <= due <= ticks,
                    interval > 0,
            ;
            assert(interval * ticks == ticks * interval) by (nonlinear_arith);
        }
        let spent: u128 = due as u128 * interval;
        self.typewriter_index = self.typewriter_index + due;
        self.elapsed = budget - spent;
    }

    /// The clusters that are revealed: the first of the line, in order.
    pub fn visible_prefix(&self) -> (visible: Vec<StyledGrapheme>)
        ensures
            visible.deep_view() == self@.visible(),
    {
        proof {
            use_type_invariant(self);
        }
        let mut visible: Vec<StyledGrapheme> = Vec::new();
        let mut next: usize = 0;
        while next < self.typewriter_index
            invariant
                next <= self.typewriter_index <= self.graphemes@.len(),
                visible.deep_view() == self.graphemes.deep_view().take(next as int),
            decreases self.typewriter_index - next,
        {
            let ghost before = visible.deep_view();
            visible.push(self.graphemes[next].duplicate());
            proof {
                assert(visible.deep_view() =~= before.push(self.graphemes@[next as int]@));
                assert(self.graphemes.deep_view().take(next + 1) =~= before.push(
                    self.graphemes@[next as int]@,
                ));
            }
            next += 1;
        }
        visible
    }

    /// The name of the speaker, if one is set.
    pub fn character(&self) -> (character: &Option<String>)
        ensures
            self.speaker() == match *character {
                Some(name) => Some(name@),
                None => None,
            },
    {
        &self.character
    }

    /// The line being spoken.
    pub fn text(&self) -> (text: &Vec<StyledSegment>)
        ensures
            text.deep_view() == self.line(),
    {
        &self.text
    }

    /// How many clusters are revealed.
    pub fn revealed_count(&self) -> (count: usize)
        ensures
            count == self@.revealed,
    {
        self.typewriter_index
    }

    /// How many clusters the line has.
    pub fn character_count(&self) -> (count: usize)
        ensures
            count == self@.total(),
    {
        self.graphemes.len()
    }
}

/// An option that the player may choose: its number among the options on
/// offer, and its label as styled segments.
#[derive(Clone, Debug, PartialEq, Eq)]
pub struct DialogueOption {
    pub id: usize,
    pub label: Vec<StyledSegment>,
}

/// Terminals wider than this many columns get the wide options box.
pub const WIDE_TERMINAL: u16 = 40;

/// The width of the labels in the wide options box.
pub const WIDE_BOX: u16 = 20;

/// The width of the labels in the narrow options box.
pub const NARROW_BOX: u16 = 10;

/// The columns that the frame, its padding and the selection mark add to the
/// width of the labels.
pub const FRAME_WIDTH: u16 = 7;

/// The rows that the frame adds to the rows of the labels.
pub const FRAME_HEIGHT: u16 = 2;

/// The options box: the options on offer.
pub struct OptionsBoxWidget {
    /// Available dialog options.
    pub options: Vec<DialogueOption>,
}

/// The number of rows in all the items together.
pub open spec fn row_count(items: Seq<Seq<Seq<StyledText>>>) -> nat
    decreases items.len(),
{
    if items.len() == 0 {
        0
    } else {
        row_count(items.drop_last()) + items.last().len()
    }
}

impl OptionsBoxWidget {
    /// An options box with nothing on offer.
    pub fn new() -> (widget: Self)
        ensures
            widget.options@.len() == 0,
    {
        OptionsBoxWidget { options: Vec::new() }
    }

    /// The width to wrap the labels to, on a terminal of `columns` columns:
    /// the wide box where the terminal is wide, else the narrow one.
    pub open spec fn label_width(columns: u16) -> u16 {
        if columns > WIDE_TERMINAL {
            WIDE_BOX
        } else {
            NARROW_BOX
        }
    }

    /// The width to wrap the labels to, on a terminal of `columns` columns.
    pub fn box_size(columns: u16) -> (size: u16)
        ensures
            size == OptionsBoxWidget::label_width(columns),
    {
        if columns > WIDE_TERMINAL {
            WIDE_BOX
        } else {
            NARROW_BOX
        }
    }

    /// The label of each option wrapped to `width` columns: one list of rows
    /// for each option, in the order of the options.
    pub fn items(&self, width: usize) -> (items: Vec<Vec<Vec<StyledGrapheme>>>)
        ensures
            items.deep_view().len() == self.options@.len(),
            forall|i: int|
                0 <= i < self.options@.len() ==> #[trigger] items.deep_view()[i] == wrapped_rows(
                    self.options@[i].label.deep_view(),
                    width as nat,
                ),
    {
        let mut items: Vec<Vec<Vec<StyledGrapheme>>> = Vec::new();
        let mut next: usize = 0;
        while next < self.options.len()
            invariant
                next <= self.options@.len(),
                items.deep_view().len() == next,
                forall|i: int|
                    0 <= i < next ==> #[trigger] items.deep_view()[i] == wrapped_rows(
                        self.options@[i].label.deep_view(),
                        width as nat,
                    ),
            decreases self.options.len() - next,
        {
            let ghost before = items.deep_view();
            let rows = wrap(&self.options[next].label, width);
            items.push(rows);
            proof {
                let after = items.deep_view();
                assert(after =~= before.push(after[next as int]));
                assert(after[next as int] == items@[next as int].deep_view());
            }
            next += 1;
        }
        items
    }

    /// The size of the options box for the given items on a terminal of
    /// `columns` columns: the width of the labels and the rows of all items,
    /// each with what the frame adds, and neither beyond what 16 bits hold.
    pub fn frame(columns: u16, items: &Vec<Vec<Vec<StyledGrapheme>>>) -> (size: (u16, u16))
        ensures
            size.0 == OptionsBoxWidget::label_width(columns) + FRAME_WIDTH,
            size.1 == if row_count(items.deep_view()) + FRAME_HEIGHT <= u16::MAX {
                row_count(items.deep_view()) + FRAME_HEIGHT
            } else {
                u16::MAX as int
            },
    {
        let limit: u16 = u16::MAX - FRAME_HEIGHT;
        let mut rows: u16 = 0;
        let mut next: usize = 0;
        while next < items.len()
            invariant
                next <= items@.len(),
                limit == u16::MAX - FRAME_HEIGHT,
                rows == if row_count(items.deep_view().take(next as int)) <= limit {
                    row_count(items.deep_view().take(next as int))
                } else {
                    limit as nat
                },
            decreases items.len() - next,
        {
            proof {
                assert(items.deep_view().take(next + 1).drop_last() =~= items.deep_view().take(
                    next as int,
                ));
                assert(items.deep_view()[next as int].len() == items@[next as int]@.len());
            }
            let more = items[next].len();
            rows = if more >= (limit - rows) as usize {
                limit
            } else {
                rows + more as u16
            };
            next += 1;
        }
        proof {
            assert(items.deep_view().take(next as int) =~= items.deep_view());
        }
        (OptionsBoxWidget::box_size(columns) + FRAME_WIDTH, rows + FRAME_HEIGHT)
    }
}

impl Default for OptionsBoxWidget {
    fn default() -> (widget: Self)
        ensures
            widget.options@.len() == 0,
    {
        OptionsBoxWidget::new()
    }
}

} // verus!

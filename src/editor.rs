//! The decisions of the deck editor: which card each slot of a card grid shows, what
//! is being dragged, and what happens to the deck when a card that is being dragged is
//! dropped on one of its sections.

use crate::card::CardInfo;
use crate::deck::{added_copy, copy_fits, Deck};
use crate::tcg::TCG;
use vstd::prelude::*;

verus! {

/// The kind of card view a drag starts from.
#[derive(Clone, Copy, Debug, PartialEq, Eq, Structural)]
pub enum CardViewType {
    /// The search results, which list cards of the ruleset.
    SearchView,
    /// A section of the deck being edited.
    EditorView,
}

/// What is being dragged: the kind of view it comes from and the name of the card.
#[derive(Clone, Debug, PartialEq, Eq)]
pub struct DragInfo {
    pub source_type: CardViewType,
    pub source_data: String,
}

/// What a drop on a deck section did.
#[derive(Clone, Copy, Debug, PartialEq, Eq, Structural)]
pub enum DropOutcome {
    /// A copy of the card went into the section.
    Added,
    /// The section already holds as many copies as the ruleset allows.
    AtLimit,
    /// The ruleset has no card of the dragged name.
    NotFound,
    /// Nothing from the search results was being dragged.
    Ignored,
}

/// Drops what is being dragged on the deck section at `index`: a card dragged from the
/// search results goes into the section under the ruleset's card limit, as
/// `DeckSection::add_card` rules; anything else leaves the deck as it is.
pub fn drop_on_section(tcg: &TCG, deck: &mut Deck, index: usize, drag: &Option<DragInfo>) -> (r: DropOutcome)
    requires
        index < old(deck).sections@.len(),
    ensures
        match drag {
            Some(info) if info.source_type == CardViewType::SearchView => {
                if tcg.cards@.dom().contains(info.source_data@) {
                    let card = tcg.cards@[info.source_data@].name@;
                    let before = old(deck).sections@[index as int].cards@;
                    &&& r == (if copy_fits(before, card, tcg.card_limit) {
                        DropOutcome::Added
                    } else {
                        DropOutcome::AtLimit
                    })
                    &&& final(deck).sections@.len() == old(deck).sections@.len()
                    &&& final(deck).sections@[index as int].cards@ == added_copy(before, card, tcg.card_limit)
                    &&& final(deck).sections@[index as int].info == old(deck).sections@[index as int].info
                    &&& forall|j: int|
                        0 <= j < old(deck).sections@.len() && j != index ==> final(deck).sections@[j]
                            == old(deck).sections@[j]
                    &&& final(deck).name == old(deck).name
                } else {
                    r == DropOutcome::NotFound && *final(deck) == *old(deck)
                }
            },
            _ => r == DropOutcome::Ignored && *final(deck) == *old(deck),
        },
{
    match drag {
        Some(info) => {
            if info.source_type != CardViewType::SearchView {
                return DropOutcome::Ignored;
            }
            let found: Option<&CardInfo> = tcg.cards.get(info.source_data.as_str());
            match found {
                Some(card) => {
                    if deck.add_card_to_section(index, card.name.as_str(), tcg.card_limit) {
                        DropOutcome::Added
                    } else {
                        DropOutcome::AtLimit
                    }
                },
                None => DropOutcome::NotFound,
            }
        },
        None => DropOutcome::Ignored,
    }
}

/// Rows of a card grid made without a size.
pub const DEFAULT_ROW_COUNT: usize = 5;

/// Columns of a card grid made without a size.
pub const DEFAULT_COL_COUNT: usize = 4;

/// A grid of card slots, filled row by row from a list of cards: slot `i` shows card
/// `i`, and slots past the end of the list show a blank card. Cards past the last slot
/// are held but not shown.
pub struct CardView {
    pub view_type: CardViewType,
    pub cards: Vec<CardInfo>,
    pub row_count: usize,
    pub col_count: usize,
    /// The name of the card whose drag began last.
    pub dragged_text: Option<String>,
}

/// Where the first card called `name` stands in `cards`, if any.
pub open spec fn first_named(cards: Seq<CardInfo>, name: Seq<char>) -> Option<int>
    decreases cards.len(),
{
    if cards.len() == 0 {
        None
    } else {
        match first_named(cards.drop_last(), name) {
            Some(i) => Some(i),
            None => if cards.last().name@ == name {
                Some(cards.len() - 1)
            } else {
                None
            },
        }
    }
}

proof fn lemma_first_named_step(cards: Seq<CardInfo>, name: Seq<char>, i: int)
    requires
        0 <= i < cards.len(),
        first_named(cards.take(i), name) is None,
    ensures
        first_named(cards.take(i + 1), name) == (if cards[i].name@ == name {
            Some(i)
        } else {
            None::<int>
        }),
{
    assert(cards.take(i + 1).drop_last() =~= cards.take(i));
}

proof fn lemma_first_named_found(cards: Seq<CardInfo>, name: Seq<char>, k: int)
    requires
        0 <= k <= cards.len(),
        first_named(cards.take(k), name) is Some,
    ensures
        first_named(cards, name) == first_named(cards.take(k), name),
    decreases cards.len() - k,
{
    if k == cards.len() {
        assert(cards.take(k) =~= cards);
    } else {
        assert(cards.take(k + 1).drop_last() =~= cards.take(k));
        lemma_first_named_found(cards, name, k + 1);
    }
}

impl CardView {
    /// An empty grid of the default size.
    pub fn new(view_type: CardViewType) -> (r: CardView)
        ensures
            r.view_type == view_type,
            r.cards@.len() == 0,
            r.row_count == DEFAULT_ROW_COUNT && r.col_count == DEFAULT_COL_COUNT,
            r.dragged_text is None,
    {
        CardView::new_with_size(view_type, DEFAULT_ROW_COUNT, DEFAULT_COL_COUNT)
    }

    /// An empty grid of `row_count` rows and `col_count` columns.
    pub fn new_with_size(view_type: CardViewType, row_count: usize, col_count: usize) -> (r: CardView)
        ensures
            r.view_type == view_type,
            r.cards@.len() == 0,
            r.row_count == row_count && r.col_count == col_count,
            r.dragged_text is None,
    {
        CardView { view_type, cards: Vec::new(), row_count, col_count, dragged_text: None }
    }

    /// The kind of view this grid is.
    pub fn get_view_type(&self) -> (r: CardViewType)
        ensures
            r == self.view_type,
    {
        self.view_type
    }

    /// The rows of the grid.
    pub fn get_row_count(&self) -> (r: usize)
        ensures
            r == self.row_count,
    {
        self.row_count
    }

    /// The columns of the grid.
    pub fn get_col_count(&self) -> (r: usize)
        ensures
            r == self.col_count,
    {
        self.col_count
    }

    /// The card shown in slot `index`, counting row by row: none where the slot lies
    /// outside the grid or past the end of the list.
    pub fn slot_card(&self, index: usize) -> (r: Option<&CardInfo>)
        ensures
            match r {
                Some(card) => index < self.cards@.len() && index < self.row_count * self.col_count
                    && *card == self.cards@[index as int],
                None => index >= self.cards@.len() || index >= self.row_count * self.col_count,
            },
    {
        if self.col_count == 0 || index >= self.cards.len() {
            return None;
        }
        let row = index / self.col_count;
        proof {
            let (i, c, n) = (index as int, self.col_count as int, self.row_count as int);
            assert(i < n * c <==> i / c < n) by (nonlinear_arith)
                requires
                    c > 0,
                    i >= 0,
                    n >= 0,
            {
                if i / c < n {
                    assert(i < (i / c + 1) * c);
                    assert((i / c + 1) * c <= n * c);
                } else {
                    assert(i >= (i / c) * c);
                    assert((i / c) * c >= n * c);
                }
            }
        }
        if row < self.row_count {
            Some(&self.cards[index])
        } else {
            None
        }
    }

    /// Adds a card at the end of the list.
    pub fn add_card(&mut self, card: CardInfo)
        ensures
            final(self).cards@ == old(self).cards@.push(card),
            final(self).view_type == old(self).view_type,
            final(self).row_count == old(self).row_count && final(self).col_count == old(self).col_count,
            final(self).dragged_text == old(self).dragged_text,
    {
        self.cards.push(card);
    }

    /// Shows these cards instead of the ones shown before.
    pub fn set_cards(&mut self, cards: Vec<CardInfo>)
        ensures
            final(self).cards@ == cards@,
            final(self).view_type == old(self).view_type,
            final(self).row_count == old(self).row_count && final(self).col_count == old(self).col_count,
            final(self).dragged_text == old(self).dragged_text,
    {
        self.cards = cards;
    }

    /// Takes the first card called `name` out of the list, if there is one; the cards
    /// after it move up one slot.
    pub fn remove_card(&mut self, name: &str)
        ensures
            match first_named(old(self).cards@, name@) {
                Some(i) => final(self).cards@ == old(self).cards@.remove(i),
                None => final(self).cards@ == old(self).cards@,
            },
            final(self).view_type == old(self).view_type,
            final(self).row_count == old(self).row_count && final(self).col_count == old(self).col_count,
            final(self).dragged_text == old(self).dragged_text,
    {
        let key = name.to_owned();
        let ghost cards = self.cards@;
        let mut i: usize = 0;
        while i < self.cards.len()
            invariant
                i <= cards.len(),
                cards == self.cards@,
                *self == *old(self),
                key@ == name@,
                first_named(cards.take(i as int), name@) is None,
            decreases cards.len() - i,
        {
            proof { lemma_first_named_step(cards, name@, i as int); }
            if self.cards[i].name == key {
                proof { lemma_first_named_found(cards, name@, i + 1); }
                self.cards.remove(i);
                return;
            }
            i = i + 1;
        }
        assert(cards.take(i as int) =~= cards);
    }

    /// Starts dragging the card in slot `index`: its name becomes the dragged text.
    /// Tells whether there was a card to drag; an empty slot leaves everything as it is.
    pub fn drag_card(&mut self, index: usize) -> (r: bool)
        ensures
            r == (index < old(self).cards@.len() && index < old(self).row_count * old(self).col_count),
            r ==> final(self).dragged_text == Some(old(self).cards@[index as int].name),
            !r ==> final(self).dragged_text == old(self).dragged_text,
            final(self).cards == old(self).cards,
            final(self).view_type == old(self).view_type,
            final(self).row_count == old(self).row_count && final(self).col_count == old(self).col_count,
    {
        let name = match self.slot_card(index) {
            Some(card) => card.name.clone(),
            None => return false,
        };
        self.dragged_text = Some(name);
        true
    }

    /// The name of the card whose drag began last.
    pub fn get_dragged_text(&self) -> (r: Option<String>)
        ensures
            r == self.dragged_text,
    {
        match &self.dragged_text {
            Some(text) => Some(text.clone()),
            None => None,
        }
    }

    /// What a drag that starts in this grid carries: the kind of view and the dragged
    /// card, where a drag has begun.
    pub fn drag_info(&self) -> (r: Option<DragInfo>)
        ensures
            match self.dragged_text {
                Some(text) => r == Some(DragInfo { source_type: self.view_type, source_data: text }),
                None => r is None,
            },
    {
        match self.get_dragged_text() {
            Some(text) => Some(DragInfo { source_type: self.view_type, source_data: text }),
            None => None,
        }
    }
}

} // verus!

//! The decisions of the trade window: how each party's offer is laid out, what
//! the buttons answer, and how the amount field turns text into a request.
use vstd::prelude::*;

use specs::Entity;

use crate::numeral::{format_int, i32_of, lemma_numeral_chars, lemma_parse_format_round_trip, numeral, parse_i32};
use crate::text::lemma_trim_keeps;
use crate::offer::{distinct_slots, slot_before, slot_lt, InvSlotId, TradeOffer};
use crate::text::{chars_of, string_of, trim, trimmed};

verus! {

/// `specs::Entity`, an entity of the game's world; it is carried through as it is.
#[verifier::external_type_specification]
#[verifier::external_body]
pub struct ExEntity(specs::Entity);

/// `PartialEq::eq` of `specs::Entity`, which `derive` writes: two entities are
/// equal when their index and generation are, that is when they are the same value.
#[verifier::external_body]
fn same_entity(a: &Entity, b: &Entity) -> (r: bool)
    ensures
        r == (*a == *b),
{
    *a == *b
}

/// The number of slots shown for each party.
pub const MAX_TRADE_SLOTS: usize = 16;

/// One slot of a party's offer as the window shows it.
#[derive(Clone, Copy)]
pub struct TradeSlot {
    pub index: usize,
    pub quantity: u32,
    pub invslot: Option<InvSlotId>,
    pub ours: bool,
    pub entity: Entity,
}

/// Whether the slots of `s` rise strictly.
pub open spec fn strictly_sorted(s: Seq<(InvSlotId, u32)>) -> bool {
    forall|a: int, b: int| 0 <= a < b < s.len() ==> slot_lt(s[a].0, s[b].0)
}

/// Sorts entries with distinct slots by slot.
fn sort_by_slot(v: &Vec<(InvSlotId, u32)>) -> (r: Vec<(InvSlotId, u32)>)
    requires
        distinct_slots(v@),
    ensures
        strictly_sorted(r@),
        forall|p: (InvSlotId, u32)| r@.contains(p) <==> v@.contains(p),
{
    let mut r: Vec<(InvSlotId, u32)> = Vec::new();
    for i in 0..v.len()
        invariant
            distinct_slots(v@),
            strictly_sorted(r@),
            forall|p: (InvSlotId, u32)| r@.contains(p) <==> v@.take(i as int).contains(p),
    {
        let e = v[i];
        let mut pos: usize = 0;
        while pos < r.len() && slot_before(r[pos].0, e.0)
            invariant
                pos <= r@.len(),
                forall|j: int| 0 <= j < pos ==> slot_lt(#[trigger] r@[j].0, e.0),
            decreases r@.len() - pos,
        {
            pos += 1;
        }
        proof {
            // e's slot differs from every slot already placed
            assert forall|j: int| 0 <= j < r@.len() implies #[trigger] r@[j].0 != e.0 by {
                assert(r@.contains(r@[j]));
                let k = choose|k: int| 0 <= k < i && v@.take(i as int)[k] == r@[j];
                assert(v@[k] == r@[j]);
            }
        }
        let ghost old_r = r@;
        r.insert(pos, e);
        proof {
            assert(r@ =~= old_r.take(pos as int).push(e) + old_r.skip(pos as int));
            assert forall|a: int, b: int| 0 <= a < b < r@.len() implies slot_lt(r@[a].0, r@[b].0) by {
                if b == pos as int {
                } else if a == pos as int {
                    assert(r@[b] == old_r[b - 1]);
                    assert(!slot_lt(old_r[pos as int].0, e.0));
                    if b - 1 > pos {
                        assert(slot_lt(old_r[pos as int].0, old_r[b - 1].0));
                    }
                } else {
                }
            }
            let ghost taken = v@.take(i + 1);
            assert(taken =~= v@.take(i as int).push(e));
            assert forall|p: (InvSlotId, u32)| r@.contains(p) <==> taken.contains(p) by {
                if r@.contains(p) {
                    let j = choose|j: int| 0 <= j < r@.len() && r@[j] == p;
                    if j < pos {
                        assert(old_r.contains(p));
                    } else if j > pos {
                        assert(old_r[j - 1] == p);
                        assert(old_r.contains(p));
                    }
                    if p != e {
                        assert(v@.take(i as int).contains(p));
                        let k = choose|k: int| 0 <= k < i && v@.take(i as int)[k] == p;
                        assert(taken[k] == p);
                    } else {
                        assert(taken[i as int] == p);
                    }
                }
                if taken.contains(p) {
                    let k = choose|k: int| 0 <= k < i + 1 && taken[k] == p;
                    if k < i {
                        assert(v@.take(i as int)[k] == p);
                        assert(old_r.contains(p));
                        let j = choose|j: int| 0 <= j < old_r.len() && old_r[j] == p;
                        if j < pos {
                            assert(r@[j] == p);
                        } else {
                            assert(r@[j + 1] == p);
                        }
                    } else {
                        assert(r@[pos as int] == p);
                    }
                }
            }
        }
    }
    assert(v@.take(v@.len() as int) =~= v@);
    r
}


/// The slot that `s` shows, which is never empty in an offer's slots.
pub open spec fn shown_slot(s: TradeSlot) -> InvSlotId {
    s.invslot.unwrap()
}

/// The slots of one party's offer as the window lays them out: one per
/// offered slot, ordered by slot, numbered from 0, each with its quantity.
pub fn trade_slots(offer: &TradeOffer, ours: bool, entity: Entity) -> (r: Vec<TradeSlot>)
    ensures
        forall|i: int| 0 <= i < r@.len() ==> {
            &&& (#[trigger] r@[i]).index == i
            &&& r@[i].ours == ours
            &&& r@[i].entity == entity
            &&& r@[i].invslot is Some
            &&& offer@.contains_key(shown_slot(r@[i]))
            &&& r@[i].quantity == offer@[shown_slot(r@[i])]
        },
        forall|a: int, b: int| 0 <= a < b < r@.len() ==> slot_lt(shown_slot(#[trigger] r@[a]), shown_slot(#[trigger] r@[b])),
        forall|k: InvSlotId| #[trigger] offer@.contains_key(k) ==> exists|i: int| 0 <= i < r@.len() && r@[i].invslot == Some(k),
{
    let entries = offer.to_vec();
    let sorted = sort_by_slot(&entries);
    let mut r: Vec<TradeSlot> = Vec::new();
    for i in 0..sorted.len()
        invariant
            r@.len() == i,
            strictly_sorted(sorted@),
            forall|p: (InvSlotId, u32)| sorted@.contains(p) <==> entries@.contains(p),
            forall|i: int| 0 <= i < entries@.len() ==> #[trigger] offer@[entries@[i].0] == entries@[i].1,
            forall|k: InvSlotId| #[trigger] offer@.contains_key(k) <==> exists|i: int| 0 <= i < entries@.len() && entries@[i].0 == k,
            forall|j: int| 0 <= j < i ==> {
                &&& (#[trigger] r@[j]).index == j
                &&& r@[j].ours == ours
                &&& r@[j].entity == entity
                &&& r@[j].invslot == Some(sorted@[j].0)
                &&& r@[j].quantity == sorted@[j].1
            },
    {
        let (k, quantity) = sorted[i];
        r.push(TradeSlot { index: i, quantity, invslot: Some(k), ours, entity });
    }
    proof {
        assert forall|i: int| 0 <= i < r@.len() implies offer@.contains_key(shown_slot(#[trigger] r@[i])) && r@[i].quantity == offer@[shown_slot(r@[i])] by {
            assert(sorted@.contains(sorted@[i]));
            let j = choose|j: int| 0 <= j < entries@.len() && entries@[j] == sorted@[i];
            assert(offer@[entries@[j].0] == entries@[j].1);
        }
        assert forall|k: InvSlotId| #[trigger] offer@.contains_key(k) implies exists|i: int| 0 <= i < r@.len() && r@[i].invslot == Some(k) by {
            let j = choose|j: int| 0 <= j < entries@.len() && entries@[j].0 == k;
            assert(entries@.contains(entries@[j]));
            let i = choose|i: int| 0 <= i < sorted@.len() && sorted@[i] == entries@[j];
            assert(r@[i].invslot == Some(k));
        }
    }
    r
}


/// The phase a trade is in: the offers can change, they are being reviewed,
/// or the trade is done.
#[derive(Clone, Copy, Debug, PartialEq, Eq, Structural)]
pub enum TradePhase {
    Mutate,
    Review,
    Complete,
}

/// The unique id of a player or other entity across the network.
#[derive(Clone, Copy, Debug, PartialEq, Eq, Structural)]
pub struct Uid(pub u64);

/// A trade under way between two parties, as the window reads it.
pub struct PendingTrade {
    pub parties: [Uid; 2],
    pub offers: [TradeOffer; 2],
    pub accept_flags: [bool; 2],
    pub phase: TradePhase,
}

impl PendingTrade {
    /// The phase the trade is in.
    pub fn phase(&self) -> (p: TradePhase)
        ensures
            p == self.phase,
    {
        self.phase
    }

    /// Whether neither party offers anything.
    pub fn is_empty_trade(&self) -> (b: bool)
        ensures
            b == (self.offers[0]@.dom().is_empty() && self.offers[1]@.dom().is_empty()),
    {
        let a = self.offers[0].is_empty();
        let b = self.offers[1].is_empty();
        proof {
            assert(a == (self.offers[0]@.dom() =~= Set::<InvSlotId>::empty()));
        }
        a && b
    }
}

/// What the window asks of the trade: accept it in a phase, decline it, or
/// change by `delta` the quantity offered of the item in `item` (the request
/// that `TradeAction::item` builds from these three).
#[derive(Clone, Copy, Debug, PartialEq, Eq, Structural)]
pub enum TradeAction {
    Accept(TradePhase),
    Decline,
    Item { item: InvSlotId, delta: i32, ours: bool },
}

/// What the amount field asks of the rest of the interface: give the keyboard
/// focus to a widget, or submit the amount typed.
#[derive(Debug, PartialEq, Eq)]
pub enum HudUpdate<W> {
    Focus(W),
    Submit,
}

/// What one frame of the trade window answers.
#[derive(Debug, PartialEq, Eq)]
pub enum TradeEvent<W> {
    /// A request to the trade.
    TradeAction(TradeAction),
    /// Show the other party's inventory as a list (`true`) or as a grid.
    SetDetailsMode(bool),
    HudUpdate(HudUpdate<W>),
    /// Ask the player to confirm before the request is made.
    ShowPrompt(TradeAction),
}

/// Which of the two parties a pane shows: the first party if whether it is
/// the player matches `ours`, else the second. Nothing is shown when the
/// entity of a party that is looked at is unknown.
pub open spec fn spec_pane_party(party_entities: [Option<Entity>; 2], player: Entity, ours: bool) -> Option<usize> {
    match party_entities[0] {
        None => None,
        Some(e0) => if (e0 == player) == ours {
            Some(0)
        } else {
            match party_entities[1] {
                Some(_) => Some(1),
                None => None,
            }
        },
    }
}

/// Picks the party that the pane for the player's (`ours`) or the other
/// party's offer shows, from the entities of the two parties.
pub fn pane_party(party_entities: [Option<Entity>; 2], player: Entity, ours: bool) -> (r: Option<usize>)
    ensures
        r == spec_pane_party(party_entities, player, ours),
        party_entities[0] is None ==> r is None,
        r == Some(0usize) <==> (party_entities[0] matches Some(e0) && (e0 == player) == ours),
        r == Some(1usize) <==> (party_entities[0] matches Some(e0) && (e0 == player) != ours && party_entities[1] is Some),
        r is None || r == Some(0usize) || r == Some(1usize),
{
    match party_entities[0] {
        None => None,
        Some(e0) => {
            if same_entity(&e0, &player) == ours {
                Some(0)
            } else {
                match party_entities[1] {
                    Some(_) => Some(1),
                    None => None,
                }
            }
        },
    }
}

/// The party whose inventory serves the item tooltips of a pane: the pane's
/// own party when that is the player, else the other one.
pub fn tooltip_party(who: usize, entity: Entity, player: Entity) -> (r: usize)
    ensures
        r == (if entity == player { who } else if who == 0 { 1 } else { 0 }),
{
    if same_entity(&entity, &player) {
        who
    } else if who == 0 {
        1
    } else {
        0
    }
}

/// The name a pane gives its party: the player's alias when it is a player
/// in the player list, else the name in its stats; `None` leaves the pane to
/// name it by its place and gender.
pub fn display_name(alias: Option<String>, stats_name: Option<String>) -> (n: Option<String>)
    ensures
        n == (if alias is Some { alias } else { stats_name }),
{
    match alias {
        Some(a) => Some(a),
        None => stats_name,
    }
}

/// How a pane shows an offer.
#[derive(Clone, Copy, Debug, PartialEq, Eq, Structural)]
pub enum PaneView {
    /// A grid of item slots, while the offers can change.
    Grid,
    /// A list of quantities and names, for review.
    ReviewList,
}

/// The view of the panes in a phase: the grid while the offers can change,
/// the list afterwards.
pub fn pane_view(phase: TradePhase) -> (v: PaneView)
    ensures
        v == (if phase == TradePhase::Mutate { PaneView::Grid } else { PaneView::ReviewList }),
{
    match phase {
        TradePhase::Mutate => PaneView::Grid,
        _ => PaneView::ReviewList,
    }
}

/// Whether a pane in the grid view also shows its party's inventory with the
/// button that switches its details: only the other party's pane does.
pub fn shows_inventory(ours: bool) -> (b: bool)
    ensures
        b == !ours,
{
    !ours
}

/// The slot at `i` of an offer's slots, or an empty one past their end.
pub fn slot_or_empty(tradeslots: &Vec<TradeSlot>, i: usize, ours: bool, entity: Entity) -> (s: TradeSlot)
    ensures
        i < tradeslots@.len() ==> s == tradeslots@[i as int],
        i >= tradeslots@.len() ==> s == (TradeSlot { index: i, quantity: 0, invslot: None, ours, entity }),
{
    if i < tradeslots.len() {
        tradeslots[i]
    } else {
        TradeSlot { index: i, quantity: 0, invslot: None, ours, entity }
    }
}

/// Where the `i`th slot of a party's grid goes.
#[derive(Clone, Copy, Debug, PartialEq, Eq, Structural)]
pub struct SlotPlacement {
    /// Distance from the top of the grid, in pixels.
    pub top: u32,
    /// Distance from the left of the grid, in pixels.
    pub left: u32,
    /// Index of the slot's widget among both parties' slot widgets.
    pub widget: usize,
}

/// Places slot `i` of party `who` on a grid four slots wide with cells 40
/// pixels square; each party has its own run of `MAX_TRADE_SLOTS` widgets.
pub fn slot_placement(i: usize, who: usize) -> (p: SlotPlacement)
    requires
        i < MAX_TRADE_SLOTS,
        who < 2,
    ensures
        p.top == 40 * (i / 4),
        p.left == 40 * (i % 4),
        p.widget == i + who * MAX_TRADE_SLOTS,
{
    let x = i % 4;
    let y = i / 4;
    SlotPlacement { top: 40 * (y as u32), left: 40 * (x as u32), widget: i + who * MAX_TRADE_SLOTS }
}

/// The quality of an item.
#[derive(Clone, Copy, Debug, PartialEq, Eq, Structural)]
pub enum Quality {
    Low,
    Common,
    Moderate,
    High,
    Epic,
    Legendary,
    Artifact,
    Debug,
}

/// The frame a filled slot is drawn with.
#[derive(Clone, Copy, Debug, PartialEq, Eq, Structural)]
pub enum SlotFrame {
    Grey,
    Common,
    Green,
    Blue,
    Purple,
    Gold,
    Orange,
    Red,
}

/// The frame for an item of quality `q`.
pub fn quality_frame(q: Quality) -> (f: SlotFrame)
    ensures
        f == match q {
            Quality::Low => SlotFrame::Grey,
            Quality::Common => SlotFrame::Common,
            Quality::Moderate => SlotFrame::Green,
            Quality::High => SlotFrame::Blue,
            Quality::Epic => SlotFrame::Purple,
            Quality::Legendary => SlotFrame::Gold,
            Quality::Artifact => SlotFrame::Orange,
            Quality::Debug => SlotFrame::Red,
        },
{
    match q {
        Quality::Low => SlotFrame::Grey,
        Quality::Common => SlotFrame::Common,
        Quality::Moderate => SlotFrame::Green,
        Quality::High => SlotFrame::Blue,
        Quality::Epic => SlotFrame::Purple,
        Quality::Legendary => SlotFrame::Gold,
        Quality::Artifact => SlotFrame::Orange,
        Quality::Debug => SlotFrame::Red,
    }
}


/// One row of a party's offer in the review phase.
#[derive(Clone, Copy, Debug, PartialEq, Eq, Structural)]
pub struct ReviewLine {
    pub quantity: u32,
    pub invslot: Option<InvSlotId>,
    /// Whether the row is shown: something of an item is offered in it.
    pub present: bool,
}

/// A party's offer as the review phase lists it.
pub struct ReviewSummary {
    /// One row for each of the `MAX_TRADE_SLOTS` slots.
    pub lines: Vec<ReviewLine>,
    /// Whether the offer is empty, in which case the window says so.
    pub nothing_offered: bool,
    /// Whether accepting needs the player's confirmation: the other party
    /// offers nothing.
    pub needs_confirmation: bool,
}

/// The rows of a party's offer in the review phase, and whether it is empty.
pub fn review_summary(tradeslots: &Vec<TradeSlot>, ours: bool, entity: Entity) -> (r: ReviewSummary)
    ensures
        r.lines@.len() == MAX_TRADE_SLOTS,
        forall|i: int| 0 <= i < MAX_TRADE_SLOTS ==> {
            let slot = if i < tradeslots@.len() { tradeslots@[i] } else {
                TradeSlot { index: i as usize, quantity: 0, invslot: None, ours, entity }
            };
            &&& (#[trigger] r.lines@[i]).quantity == slot.quantity
            &&& r.lines@[i].invslot == slot.invslot
            &&& r.lines@[i].present == (slot.quantity > 0 && slot.invslot is Some)
        },
        r.nothing_offered == (forall|i: int| 0 <= i < MAX_TRADE_SLOTS && i < tradeslots@.len() ==> #[trigger] tradeslots@[i].quantity == 0),
        r.needs_confirmation == (r.nothing_offered && !ours),
{
    let mut lines: Vec<ReviewLine> = Vec::new();
    let mut any = false;
    for i in 0..MAX_TRADE_SLOTS
        invariant
            lines@.len() == i,
            forall|j: int| 0 <= j < i ==> {
                let slot = if j < tradeslots@.len() { tradeslots@[j] } else {
                    TradeSlot { index: j as usize, quantity: 0, invslot: None, ours, entity }
                };
                &&& (#[trigger] lines@[j]).quantity == slot.quantity
                &&& lines@[j].invslot == slot.invslot
                &&& lines@[j].present == (slot.quantity > 0 && slot.invslot is Some)
            },
            any == (exists|j: int| 0 <= j < i && j < tradeslots@.len() && #[trigger] tradeslots@[j].quantity != 0),
    {
        let slot = slot_or_empty(tradeslots, i, ours, entity);
        if slot.quantity != 0 {
            any = true;
        }
        lines.push(ReviewLine {
            quantity: slot.quantity,
            invslot: slot.invslot,
            present: slot.quantity > 0 && slot.invslot.is_some(),
        });
    }
    ReviewSummary { lines, nothing_offered: !any, needs_confirmation: !any && !ours }
}

/// The text of a review row: the quantity, `x` and the item's name.
pub fn review_label(quantity: u32, item_name: &str) -> (s: String)
    ensures
        s@ == numeral(quantity as int) + "x "@ + item_name@,
{
    let mut s = format_int(quantity as i64);
    s.append("x ");
    s.append(item_name);
    s
}

/// What the accept and decline buttons answer when clicked: declining wins;
/// accepting in the review phase asks for confirmation first when the other
/// party offers nothing.
pub open spec fn spec_accept_decline<W>(
    accept_clicked: bool,
    decline_clicked: bool,
    phase: TradePhase,
    needs_confirmation: bool,
) -> Option<TradeEvent<W>> {
    if decline_clicked {
        Some(TradeEvent::TradeAction(TradeAction::Decline))
    } else if accept_clicked {
        if phase == TradePhase::Review && needs_confirmation {
            Some(TradeEvent::ShowPrompt(TradeAction::Accept(phase)))
        } else {
            Some(TradeEvent::TradeAction(TradeAction::Accept(phase)))
        }
    } else {
        None
    }
}

/// The event of the accept and decline buttons.
pub fn accept_decline_event<W>(
    accept_clicked: bool,
    decline_clicked: bool,
    phase: TradePhase,
    needs_confirmation: bool,
) -> (e: Option<TradeEvent<W>>)
    ensures
        e == spec_accept_decline::<W>(accept_clicked, decline_clicked, phase, needs_confirmation),
        decline_clicked ==> e == Some(TradeEvent::<W>::TradeAction(TradeAction::Decline)),
        !accept_clicked && !decline_clicked ==> e is None,
        accept_clicked && !decline_clicked ==> e == Some(
            if phase == TradePhase::Review && needs_confirmation {
                TradeEvent::<W>::ShowPrompt(TradeAction::Accept(phase))
            } else {
                TradeEvent::<W>::TradeAction(TradeAction::Accept(phase))
            },
        ),
{
    let mut event: Option<TradeEvent<W>> = None;
    if accept_clicked {
        if phase == TradePhase::Review && needs_confirmation {
            event = Some(TradeEvent::ShowPrompt(TradeAction::Accept(phase)));
        } else {
            event = Some(TradeEvent::TradeAction(TradeAction::Accept(phase)));
        }
    }
    if decline_clicked {
        event = Some(TradeEvent::TradeAction(TradeAction::Decline));
    }
    event
}

/// The event of the window's close button: closing declines the trade.
pub fn close_event<W>(clicked: bool) -> (e: Option<TradeEvent<W>>)
    ensures
        e == (if clicked { Some(TradeEvent::TradeAction(TradeAction::Decline)) } else { None::<TradeEvent<W>> }),
{
    if clicked {
        Some(TradeEvent::TradeAction(TradeAction::Decline))
    } else {
        None
    }
}

/// The event of the button that switches how the other party's inventory is shown.
pub fn details_event<W>(clicked: bool, trade_details: bool) -> (e: Option<TradeEvent<W>>)
    ensures
        e == (if clicked { Some(TradeEvent::SetDetailsMode(!trade_details)) } else { None::<TradeEvent<W>> }),
{
    if clicked {
        Some(TradeEvent::SetDetailsMode(!trade_details))
    } else {
        None
    }
}

/// The tooltip of that button: the mode it switches to.
pub fn details_button_label(trade_details: bool) -> (s: &'static str)
    ensures
        s@ == (if trade_details { "Grid mode"@ } else { "List mode"@ }),
{
    if trade_details {
        "Grid mode"
    } else {
        "List mode"
    }
}

/// The message that describes the phase of the trade.
pub fn phase_description_key(phase: TradePhase) -> (s: &'static str)
    ensures
        s@ == match phase {
            TradePhase::Mutate => "hud-trade-phase1_description"@,
            TradePhase::Review => "hud-trade-phase2_description"@,
            TradePhase::Complete => "hud-trade-phase3_description"@,
        },
{
    match phase {
        TradePhase::Mutate => "hud-trade-phase1_description",
        TradePhase::Review => "hud-trade-phase2_description",
        TradePhase::Complete => "hud-trade-phase3_description",
    }
}

/// The message above a party's offer.
pub fn offer_header_key(ours: bool) -> (s: &'static str)
    ensures
        s@ == (if ours { "hud-trade-your_offer"@ } else { "hud-trade-their_offer"@ }),
{
    if ours {
        "hud-trade-your_offer"
    } else {
        "hud-trade-their_offer"
    }
}

/// A body's gender, where it has one.
#[derive(Clone, Copy, Debug, PartialEq, Eq, Structural)]
pub enum Gender {
    Feminine,
    Masculine,
}

/// The word for a party's gender that names an unknown party.
pub fn gender_word(gender: Option<Gender>) -> (s: &'static str)
    ensures
        s@ == match gender {
            Some(Gender::Feminine) => "she"@,
            Some(Gender::Masculine) => "he"@,
            None => "other"@,
        },
{
    match gender {
        Some(Gender::Feminine) => "she",
        Some(Gender::Masculine) => "he",
        None => "other",
    }
}

/// The last event of those the parts of the window gave, in the order they
/// were drawn.
pub open spec fn last_event<W>(events: Seq<Option<TradeEvent<W>>>) -> Option<TradeEvent<W>>
    decreases events.len(),
{
    if events.len() == 0 {
        None
    } else if events.last() is Some {
        events.last()
    } else {
        last_event(events.drop_last())
    }
}

/// What a frame of the window answers: declining when there is no trade
/// (any more), else the event of the part drawn last among those that gave one.
pub fn window_event<W>(trade_pending: bool, events: Vec<Option<TradeEvent<W>>>) -> (e: Option<TradeEvent<W>>)
    ensures
        e == (if trade_pending { last_event(events@) } else { Some(TradeEvent::TradeAction(TradeAction::Decline)) }),
        !trade_pending ==> e == Some(TradeEvent::<W>::TradeAction(TradeAction::Decline)),
        trade_pending ==> (e is None <==> forall|j: int| 0 <= j < events@.len() ==> (#[trigger] events@[j]) is None),
        forall|i: int|
            trade_pending && 0 <= i < events@.len() && (#[trigger] events@[i]) is Some && (forall|j: int|
                i < j < events@.len() ==> events@[j] is None) ==> e == events@[i],
{
    proof {
        lemma_last_event(events@);
    }
    if !trade_pending {
        return Some(TradeEvent::TradeAction(TradeAction::Decline));
    }
    let mut rest = events;
    while rest.len() > 0
        invariant
            trade_pending,
            last_event(rest@) == last_event(events@),
        decreases rest@.len(),
    {
        let ghost before = rest@;
        let x = rest.pop().unwrap();
        proof {
            assert(rest@ == before.drop_last());
            assert(x == before.last());
            assert(x is Some ==> last_event(before) == x);
        }
        if x.is_some() {
            proof {
                lemma_last_event(events@);
            }
            return x;
        }
    }
    None
}


/// The party whose offer holds the selected slot: the first party if its
/// offer holds it, else the second.
pub fn offer_side(trade: &PendingTrade, slot: InvSlotId) -> (who: usize)
    ensures
        who == (if trade.offers[0]@.contains_key(slot) { 0usize } else { 1usize }),
{
    if trade.offers[0].contains(slot) {
        0
    } else {
        1
    }
}

/// The quantity offered of the item in `slot`, 0 when it is not offered.
pub fn offered_quantity(offer: &TradeOffer, slot: InvSlotId) -> (q: u32)
    ensures
        q == (if offer@.contains_key(slot) { offer@[slot] } else { 0 }),
{
    match offer.get(slot) {
        Some(q) => q,
        None => 0,
    }
}

/// The text the amount field starts from for the selected slot: the quantity
/// offered, or nothing when the slot is not offered.
pub fn offered_text(offer: &TradeOffer, slot: InvSlotId) -> (s: String)
    ensures
        s@ == (if offer@.contains_key(slot) { numeral(offer@[slot] as int) } else { Seq::<char>::empty() }),
{
    match offer.get(slot) {
        Some(q) => format_int(q as i64),
        None => String::new(),
    }
}

/// The value `x as i32` gives for a `u32`: `x` itself up to `i32::MAX`,
/// `x - 2^32` above.
pub open spec fn wrapped_i32(x: u32) -> int {
    if x <= i32::MAX { x as int } else { x - 0x1_0000_0000 }
}

/// Whether an amount typed for a stack of `inv` items is accepted: it is not
/// negative and not above `inv as i32`.
pub open spec fn amount_in_range(n: int, inv: u32) -> bool {
    n > -1 && n <= wrapped_i32(inv)
}

/// Whether typing `new_input` into a field that shows `input` leads to a change
/// of quantity that does not fit in an `i32`, which the window does not survive.
pub open spec fn edit_overflows(input: Seq<char>, new_input: Seq<char>, inv: u32, offered: u32) -> bool {
    new_input != input && match i32_of(trim(new_input)) {
        Some(n) => amount_in_range(n, inv) && !(i32::MIN <= n - wrapped_i32(offered) <= i32::MAX),
        None => false,
    }
}

/// The field in which the player types how many items of a slot to offer.
pub struct TradeAmountInput {
    /// The slot whose quantity is changed.
    pub slot: InvSlotId,
    /// The text in the field.
    pub input: String,
    /// How many items the stack in the slot holds.
    pub inv: u32,
    /// Whether the slot is the player's.
    pub ours: bool,
    /// The party whose offer holds the slot.
    pub who: usize,
    /// Whether the field has been drawn since it was opened.
    pub input_painted: bool,
    /// The request that submitting makes.
    pub submit_action: Option<TradeAction>,
    /// What is wrong with the text, if anything.
    pub err: Option<String>,
}

impl TradeAmountInput {
    /// A field opened on `slot` with the text `input`, not drawn yet, with no
    /// request and no error.
    pub fn new(slot: InvSlotId, input: String, inv: u32, ours: bool, who: usize) -> (r: Self)
        ensures
            r.slot == slot,
            r.input == input,
            r.inv == inv,
            r.ours == ours,
            r.who == who,
            !r.input_painted,
            r.submit_action is None,
            r.err is None,
    {
        TradeAmountInput {
            slot,
            input,
            inv,
            ours,
            who,
            input_painted: false,
            submit_action: None,
            err: None,
        }
    }

    /// A frame of the open field: the amount is submitted when the field has
    /// been drawn before and no longer holds the keyboard, or when its close
    /// button was clicked; from then on the field counts as drawn.
    pub fn paint<W>(&mut self, text_edit_captured: bool, close_clicked: bool) -> (e: Option<HudUpdate<W>>)
        ensures
            e == (if (!text_edit_captured && old(self).input_painted) || close_clicked {
                Some(HudUpdate::<W>::Submit)
            } else {
                None
            }),
            final(self).input_painted,
            final(self).slot == old(self).slot,
            final(self).input == old(self).input,
            final(self).inv == old(self).inv,
            final(self).ours == old(self).ours,
            final(self).who == old(self).who,
            final(self).submit_action == old(self).submit_action,
            final(self).err == old(self).err,
    {
        let mut event: Option<HudUpdate<W>> = None;
        if !text_edit_captured && self.input_painted {
            event = Some(HudUpdate::Submit);
        }
        if close_clicked {
            event = Some(HudUpdate::Submit);
        }
        self.input_painted = true;
        event
    }

    /// Whether typing `new_input` now, with `offered` items of the slot in the
    /// offer, makes a change of quantity that does not fit in an `i32`.
    pub fn overflows(&self, new_input: &String, offered: u32) -> (b: bool)
        ensures
            b == edit_overflows(self.input@, new_input@, self.inv, offered),
    {
        if *new_input == self.input {
            return false;
        }
        let chars = chars_of(new_input.as_str());
        let t = trimmed(&chars);
        match parse_i32(&t) {
            Some(n) => {
                let lim: u32 = 0x7fff_ffff;
                let inv_w: i64 = if self.inv <= lim { self.inv as i64 } else { self.inv as i64 - 0x1_0000_0000 };
                let off_w: i64 = if offered <= lim { offered as i64 } else { offered as i64 - 0x1_0000_0000 };
                let d: i64 = n as i64 - off_w;
                (n as i64) > -1 && (n as i64) <= inv_w && !(-0x8000_0000 <= d && d <= 0x7fff_ffff)
            },
            None => false,
        }
    }

    /// Takes the text the player typed. When it differs from the field's, the
    /// field keeps it without surrounding white space; an `i32` in it is
    /// written back in its plain form and, when the stack holds that many,
    /// becomes the request to offer that many (the change from the `offered`
    /// items); other text is an error and cancels the request.
    pub fn edit(&mut self, new_input: String, offered: u32)
        requires
            !edit_overflows(old(self).input@, new_input@, old(self).inv, offered),
        ensures
            final(self).slot == old(self).slot,
            final(self).inv == old(self).inv,
            final(self).ours == old(self).ours,
            final(self).who == old(self).who,
            final(self).input_painted == old(self).input_painted,
            // a new request never asks for a negative amount nor more than the stack
            final(self).submit_action != old(self).submit_action ==> (final(self).submit_action matches Some(
                TradeAction::Item { delta, .. },
            ) ==> 0 <= wrapped_i32(offered) + delta <= old(self).inv),
            new_input@ == old(self).input@ ==> {
                &&& final(self).input == old(self).input
                &&& final(self).submit_action == old(self).submit_action
                &&& final(self).err == old(self).err
            },
            new_input@ != old(self).input@ ==> {
                let t = trim(new_input@);
                if t.len() == 0 {
                    &&& final(self).input@ == t
                    &&& final(self).submit_action is None
                    &&& final(self).err == old(self).err
                } else {
                    match i32_of(t) {
                        Some(n) => {
                            &&& final(self).input@ == numeral(n)
                            &&& if amount_in_range(n, old(self).inv) {
                                &&& final(self).err is None
                                &&& final(self).submit_action == Some(TradeAction::Item {
                                    item: old(self).slot,
                                    delta: (n - wrapped_i32(offered)) as i32,
                                    ours: old(self).ours,
                                })
                            } else {
                                &&& final(self).err matches Some(e) && e@ == "out of range"@
                                &&& final(self).submit_action is None
                            }
                        },
                        None => {
                            &&& final(self).input@ == t
                            &&& final(self).err matches Some(e) && e@ == "bad quantity"@
                            &&& final(self).submit_action is None
                        },
                    }
                }
            },
    {
        if new_input == self.input {
            return;
        }
        let chars = chars_of(new_input.as_str());
        let t = trimmed(&chars);
        self.input = string_of(&t);
        if t.len() == 0 {
            self.submit_action = None;
            return;
        }
        match parse_i32(&t) {
            Some(n) => {
                self.input = format_int(n as i64);
                let lim: u32 = 0x7fff_ffff;
                let in_range = n > -1 && self.inv <= lim && n <= self.inv as i32;
                if in_range {
                    self.err = None;
                    let off_w: i64 = if offered <= lim { offered as i64 } else { offered as i64 - 0x1_0000_0000 };
                    let d: i64 = n as i64 - off_w;
                    self.submit_action = Some(TradeAction::Item { item: self.slot, delta: d as i32, ours: self.ours });
                } else {
                    self.err = Some(String::from_str("out of range"));
                    self.submit_action = None;
                }
            },
            None => {
                self.err = Some(String::from_str("bad quantity"));
                self.submit_action = None;
            },
        }
    }
}

/// A frame in which the player has a slot of the trade selected: the field is
/// closed, and it opens on that slot, taking the keyboard, when its button
/// was clicked.
pub fn select_slot<W>(
    key: &mut Option<TradeAmountInput>,
    slot: InvSlotId,
    input: String,
    inv: u32,
    ours: bool,
    who: usize,
    open_clicked: bool,
    amount_input: W,
) -> (e: Option<HudUpdate<W>>)
    ensures
        open_clicked ==> {
            &&& e == Some(HudUpdate::Focus(amount_input))
            &&& *final(key) matches Some(k) && k.slot == slot && k.input == input && k.inv == inv && k.ours == ours
                && k.who == who && !k.input_painted && k.submit_action is None && k.err is None
        },
        !open_clicked ==> e is None && *final(key) is None,
{
    *key = None;
    if open_clicked {
        *key = Some(TradeAmountInput::new(slot, input, inv, ours, who));
        Some(HudUpdate::Focus(amount_input))
    } else {
        None
    }
}


/// The text that the amount field shows after it reads an amount `n` (the
/// numeral of `n`) reads back, as typed text, to `n`: typing it again asks
/// for the same change.
pub proof fn lemma_field_text_reads_back(n: i32)
    ensures
        i32_of(trim(numeral(n as int))) == Some(n as int),
{
    lemma_numeral_chars(n as int);
    lemma_trim_keeps(numeral(n as int));
    lemma_parse_format_round_trip(n);
}


/// The event a frame reports is the one of the part drawn last among those
/// that gave one, and there is none only when no part gave one.
pub proof fn lemma_last_event<W>(events: Seq<Option<TradeEvent<W>>>)
    ensures
        last_event(events) is None <==> forall|j: int| 0 <= j < events.len() ==> (#[trigger] events[j]) is None,
        forall|i: int|
            0 <= i < events.len() && (#[trigger] events[i]) is Some && (forall|j: int| i < j < events.len() ==> events[j] is None)
                ==> last_event(events) == events[i],
    decreases events.len(),
{
    if events.len() > 0 {
        let init = events.drop_last();
        lemma_last_event(init);
        assert forall|j: int| 0 <= j < init.len() implies init[j] == events[j] by {}
        if events.last() is None {
            assert forall|i: int|
                0 <= i < events.len() && (#[trigger] events[i]) is Some && (forall|j: int| i < j < events.len() ==> events[j] is None)
                implies last_event(events) == events[i] by {
                assert(i < events.len() - 1);
                assert(init[i] == events[i]);
                assert forall|j: int| i < j < init.len() implies init[j] is None by {
                    assert(init[j] == events[j]);
                }
            }
            if last_event(events) is None {
                assert forall|j: int| 0 <= j < events.len() implies (#[trigger] events[j]) is None by {
                    if j < events.len() - 1 {
                        assert(init[j] == events[j]);
                    }
                }
            }
            if forall|j: int| 0 <= j < events.len() ==> (#[trigger] events[j]) is None {
                assert forall|j: int| 0 <= j < init.len() implies (#[trigger] init[j]) is None by {
                    assert(init[j] == events[j]);
                }
            }
        } else {
            assert forall|i: int|
                0 <= i < events.len() && (#[trigger] events[i]) is Some && (forall|j: int| i < j < events.len() ==> events[j] is None)
                implies last_event(events) == events[i] by {
                if i < events.len() - 1 {
                    assert(events[events.len() - 1] is None);
                }
            }
            assert(events[events.len() - 1] is Some);
        }
    }
}

/// Declining wins: whatever else was clicked, in any phase, a click on the
/// decline button answers with declining the trade.
pub proof fn lemma_decline_wins<W>(accept_clicked: bool, phase: TradePhase, needs_confirmation: bool)
    ensures
        spec_accept_decline::<W>(accept_clicked, true, phase, needs_confirmation)
            == Some(TradeEvent::<W>::TradeAction(TradeAction::Decline)),
{
}

/// Without a click on either button there is no event.
pub proof fn lemma_no_click_no_event<W>(phase: TradePhase, needs_confirmation: bool)
    ensures
        spec_accept_decline::<W>(false, false, phase, needs_confirmation) is None,
{
}

/// Accepting alone accepts the trade in its phase, and asks for confirmation
/// first exactly in the review phase when the other party offers nothing.
pub proof fn lemma_accept_alone<W>(phase: TradePhase, needs_confirmation: bool)
    ensures
        spec_accept_decline::<W>(true, false, phase, needs_confirmation) matches Some(e) && (e
            == TradeEvent::<W>::ShowPrompt(TradeAction::Accept(phase)) || e == TradeEvent::<W>::TradeAction(
            TradeAction::Accept(phase),
        )),
        (spec_accept_decline::<W>(true, false, phase, needs_confirmation) is Some
            && spec_accept_decline::<W>(true, false, phase, needs_confirmation)->0 is ShowPrompt)
            <==> (phase == TradePhase::Review && needs_confirmation),
{
}


/// When the entities of both parties are known, the player's pane and the
/// other party's pane show different parties, and each shows one.
pub proof fn lemma_panes_show_both_parties(e0: Entity, e1: Entity, player: Entity)
    ensures
        ({
            let ours = spec_pane_party([Some(e0), Some(e1)], player, true);
            let theirs = spec_pane_party([Some(e0), Some(e1)], player, false);
            &&& ours is Some && theirs is Some
            &&& ours != theirs
            &&& (ours == Some(0usize) <==> e0 == player)
        }),
{
}

} // verus!

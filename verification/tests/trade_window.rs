use specs::{Builder, World, WorldExt};
use voxygen::offer::{InvSlotId, TradeOffer};
use voxygen::trade::{
    accept_decline_event, display_name, pane_view, shows_inventory, PaneView, close_event, details_button_label, details_event, gender_word,
    offer_header_key, offer_side, offered_quantity, offered_text, pane_party,
    phase_description_key, quality_frame, review_label, review_summary, select_slot,
    slot_or_empty, slot_placement, tooltip_party, trade_slots, window_event, Gender, HudUpdate,
    PendingTrade, Quality, SlotFrame, TradeAction, TradeAmountInput, TradeEvent, TradePhase, Uid,
    MAX_TRADE_SLOTS,
};

fn slot(a: u16, b: u16) -> InvSlotId {
    InvSlotId::new(a, b)
}

fn offer(items: &[(InvSlotId, u32)]) -> TradeOffer {
    let mut o = TradeOffer::new();
    for (k, q) in items {
        o.insert(*k, *q);
    }
    o
}

fn pending(first: &[(InvSlotId, u32)], second: &[(InvSlotId, u32)], phase: TradePhase) -> PendingTrade {
    PendingTrade {
        parties: [Uid(1), Uid(2)],
        offers: [offer(first), offer(second)],
        accept_flags: [false, false],
        phase,
    }
}

fn two_entities() -> (specs::Entity, specs::Entity) {
    let mut world = World::new();
    let a = world.create_entity().build();
    let b = world.create_entity().build();
    (a, b)
}

#[test]
fn offer_reads_back_what_was_written() {
    let mut o = TradeOffer::new();
    assert!(o.is_empty());
    o.insert(slot(0, 3), 5);
    o.insert(slot(1, 0), 2);
    assert_eq!(o.get(slot(0, 3)), Some(5));
    assert_eq!(o.get(slot(1, 0)), Some(2));
    assert_eq!(o.get(slot(0, 4)), None);
    o.insert(slot(0, 3), 9);
    assert_eq!(o.get(slot(0, 3)), Some(9));
    assert_eq!(o.to_vec().len(), 2);
    assert!(o.contains(slot(1, 0)));
    assert!(!o.is_empty());
}

#[test]
fn trade_slots_are_sorted_and_numbered() {
    let (e, _) = two_entities();
    let o = offer(&[(slot(1, 0), 4), (slot(0, 9), 1), (slot(0, 2), 7)]);
    let slots = trade_slots(&o, true, e);
    let order: Vec<_> = slots.iter().map(|s| (s.index, s.invslot, s.quantity, s.ours)).collect();
    assert_eq!(
        order,
        vec![
            (0, Some(slot(0, 2)), 7, true),
            (1, Some(slot(0, 9)), 1, true),
            (2, Some(slot(1, 0)), 4, true),
        ]
    );
    assert!(slots.iter().all(|s| s.entity == e));
}

#[test]
fn missing_slots_are_empty() {
    let (e, _) = two_entities();
    let slots = trade_slots(&offer(&[(slot(0, 1), 3)]), false, e);
    let s = slot_or_empty(&slots, 0, false, e);
    assert_eq!((s.index, s.quantity, s.invslot), (0, 3, Some(slot(0, 1))));
    let s = slot_or_empty(&slots, 5, false, e);
    assert_eq!((s.index, s.quantity, s.invslot, s.ours), (5, 0, None, false));
}

#[test]
fn slots_lie_on_a_four_wide_grid() {
    let p = slot_placement(0, 0);
    assert_eq!((p.top, p.left, p.widget), (0, 0, 0));
    let p = slot_placement(5, 0);
    assert_eq!((p.top, p.left, p.widget), (40, 40, 5));
    let p = slot_placement(15, 1);
    assert_eq!((p.top, p.left, p.widget), (120, 120, 31));
}

#[test]
fn quality_picks_the_frame() {
    assert_eq!(quality_frame(Quality::Low), SlotFrame::Grey);
    assert_eq!(quality_frame(Quality::Epic), SlotFrame::Purple);
    assert_eq!(quality_frame(Quality::Artifact), SlotFrame::Orange);
    assert_eq!(quality_frame(Quality::Debug), SlotFrame::Red);
}

#[test]
fn panes_pick_their_party() {
    let (me, other) = two_entities();
    assert_eq!(pane_party([Some(me), Some(other)], me, true), Some(0));
    assert_eq!(pane_party([Some(me), Some(other)], me, false), Some(1));
    assert_eq!(pane_party([Some(other), Some(me)], me, true), Some(1));
    assert_eq!(pane_party([Some(other), Some(me)], me, false), Some(0));
    assert_eq!(pane_party([None, Some(me)], me, true), None);
    assert_eq!(pane_party([Some(other), None], me, true), None);
    assert_eq!(tooltip_party(1, other, me), 0);
    assert_eq!(tooltip_party(1, me, me), 1);
}

#[test]
fn review_of_an_empty_offer_needs_confirmation() {
    let (e, _) = two_entities();
    let none = review_summary(&Vec::new(), false, e);
    assert_eq!(none.lines.len(), MAX_TRADE_SLOTS);
    assert!(none.nothing_offered && none.needs_confirmation);
    let ours = review_summary(&Vec::new(), true, e);
    assert!(ours.nothing_offered && !ours.needs_confirmation);
    let slots = trade_slots(&offer(&[(slot(0, 1), 2), (slot(0, 2), 0)]), false, e);
    let some = review_summary(&slots, false, e);
    assert!(!some.nothing_offered && !some.needs_confirmation);
    assert!(some.lines[0].present);
    assert_eq!(some.lines[0].quantity, 2);
    assert!(!some.lines[1].present);
    assert!(!some.lines[2].present);
    assert_eq!(review_label(3, "Apple"), "3x Apple");
    assert_eq!(review_label(0, ""), "0x ");
}

#[test]
fn buttons_answer_with_requests() {
    let e: Option<TradeEvent<u32>> = accept_decline_event(true, false, TradePhase::Mutate, true);
    assert_eq!(e, Some(TradeEvent::TradeAction(TradeAction::Accept(TradePhase::Mutate))));
    let e: Option<TradeEvent<u32>> = accept_decline_event(true, false, TradePhase::Review, true);
    assert_eq!(e, Some(TradeEvent::ShowPrompt(TradeAction::Accept(TradePhase::Review))));
    let e: Option<TradeEvent<u32>> = accept_decline_event(true, false, TradePhase::Review, false);
    assert_eq!(e, Some(TradeEvent::TradeAction(TradeAction::Accept(TradePhase::Review))));
    let e: Option<TradeEvent<u32>> = accept_decline_event(true, true, TradePhase::Review, true);
    assert_eq!(e, Some(TradeEvent::TradeAction(TradeAction::Decline)));
    let e: Option<TradeEvent<u32>> = accept_decline_event(false, false, TradePhase::Review, true);
    assert_eq!(e, None);
    let e: Option<TradeEvent<u32>> = close_event(true);
    assert_eq!(e, Some(TradeEvent::TradeAction(TradeAction::Decline)));
    let e: Option<TradeEvent<u32>> = close_event(false);
    assert_eq!(e, None);
    let e: Option<TradeEvent<u32>> = details_event(true, false);
    assert_eq!(e, Some(TradeEvent::SetDetailsMode(true)));
    assert_eq!(details_button_label(true), "Grid mode");
    assert_eq!(details_button_label(false), "List mode");
}

#[test]
fn window_answers_with_the_last_event() {
    let events: Vec<Option<TradeEvent<u32>>> = vec![
        Some(TradeEvent::SetDetailsMode(true)),
        None,
        Some(TradeEvent::TradeAction(TradeAction::Decline)),
        None,
    ];
    assert_eq!(window_event(true, events), Some(TradeEvent::TradeAction(TradeAction::Decline)));
    assert_eq!(window_event::<u32>(true, vec![None, None]), None);
    assert_eq!(
        window_event::<u32>(false, vec![Some(TradeEvent::SetDetailsMode(false))]),
        Some(TradeEvent::TradeAction(TradeAction::Decline))
    );
}

#[test]
fn messages_follow_phase_and_side() {
    assert_eq!(phase_description_key(TradePhase::Mutate), "hud-trade-phase1_description");
    assert_eq!(phase_description_key(TradePhase::Review), "hud-trade-phase2_description");
    assert_eq!(phase_description_key(TradePhase::Complete), "hud-trade-phase3_description");
    assert_eq!(offer_header_key(true), "hud-trade-your_offer");
    assert_eq!(offer_header_key(false), "hud-trade-their_offer");
    assert_eq!(gender_word(Some(Gender::Feminine)), "she");
    assert_eq!(gender_word(Some(Gender::Masculine)), "he");
    assert_eq!(gender_word(None), "other");
}

#[test]
fn empty_trade_is_when_nobody_offers() {
    assert!(pending(&[], &[], TradePhase::Mutate).is_empty_trade());
    assert!(!pending(&[], &[(slot(0, 0), 1)], TradePhase::Mutate).is_empty_trade());
    assert_eq!(pending(&[], &[], TradePhase::Review).phase(), TradePhase::Review);
}

#[test]
fn selected_slot_opens_the_amount_field() {
    let trade = pending(&[(slot(0, 1), 3)], &[(slot(2, 2), 8)], TradePhase::Mutate);
    assert_eq!(offer_side(&trade, slot(0, 1)), 0);
    assert_eq!(offer_side(&trade, slot(2, 2)), 1);
    assert_eq!(offer_side(&trade, slot(9, 9)), 1);
    assert_eq!(offered_quantity(&trade.offers[0], slot(0, 1)), 3);
    assert_eq!(offered_quantity(&trade.offers[0], slot(5, 1)), 0);
    assert_eq!(offered_text(&trade.offers[1], slot(2, 2)), "8");
    assert_eq!(offered_text(&trade.offers[1], slot(0, 1)), "");

    let mut key = Some(TradeAmountInput::new(slot(7, 7), String::new(), 1, true, 0));
    let e: Option<HudUpdate<u32>> = select_slot(&mut key, slot(0, 1), "3".to_string(), 10, true, 0, false, 99);
    assert_eq!(e, None);
    assert!(key.is_none());
    let e = select_slot(&mut key, slot(0, 1), "3".to_string(), 10, true, 0, true, 99u32);
    assert_eq!(e, Some(HudUpdate::Focus(99)));
    let k = key.unwrap();
    assert_eq!((k.slot, k.input.as_str(), k.inv, k.ours, k.who), (slot(0, 1), "3", 10, true, 0));
    assert!(!k.input_painted && k.submit_action.is_none() && k.err.is_none());
}

#[test]
fn amount_field_submits_when_left() {
    let mut k = TradeAmountInput::new(slot(0, 1), "3".to_string(), 10, true, 0);
    let e: Option<HudUpdate<u32>> = k.paint(false, false);
    assert_eq!(e, None);
    assert!(k.input_painted);
    let e: Option<HudUpdate<u32>> = k.paint(true, false);
    assert_eq!(e, None);
    let e: Option<HudUpdate<u32>> = k.paint(false, false);
    assert_eq!(e, Some(HudUpdate::Submit));
    let e: Option<HudUpdate<u32>> = k.paint(true, true);
    assert_eq!(e, Some(HudUpdate::Submit));
}

#[test]
fn amount_field_reads_a_quantity() {
    let mut k = TradeAmountInput::new(slot(0, 1), "3".to_string(), 10, true, 0);
    k.edit("  07 ".to_string(), 3);
    assert_eq!(k.input, "7");
    assert_eq!(k.err, None);
    assert_eq!(k.submit_action, Some(TradeAction::Item { item: slot(0, 1), delta: 4, ours: true }));
    k.edit("1".to_string(), 3);
    assert_eq!(k.submit_action, Some(TradeAction::Item { item: slot(0, 1), delta: -2, ours: true }));
    // the same text again changes nothing
    k.edit("1".to_string(), 0);
    assert_eq!(k.submit_action, Some(TradeAction::Item { item: slot(0, 1), delta: -2, ours: true }));
}

#[test]
fn amount_field_refuses_bad_text() {
    let mut k = TradeAmountInput::new(slot(0, 1), "3".to_string(), 10, false, 1);
    k.edit("11".to_string(), 3);
    assert_eq!(k.input, "11");
    assert_eq!(k.err.as_deref(), Some("out of range"));
    assert_eq!(k.submit_action, None);
    k.edit("-1".to_string(), 3);
    assert_eq!(k.err.as_deref(), Some("out of range"));
    k.edit("+5".to_string(), 3);
    assert_eq!(k.input, "5");
    assert_eq!(k.err, None);
    assert_eq!(k.submit_action, Some(TradeAction::Item { item: slot(0, 1), delta: 2, ours: false }));
    k.edit("five".to_string(), 3);
    assert_eq!(k.input, "five");
    assert_eq!(k.err.as_deref(), Some("bad quantity"));
    assert_eq!(k.submit_action, None);
    // clearing the field cancels the request and keeps the error
    k.edit("   ".to_string(), 3);
    assert_eq!(k.input, "");
    assert_eq!(k.err.as_deref(), Some("bad quantity"));
    assert_eq!(k.submit_action, None);
}

#[test]
fn huge_stacks_are_out_of_range() {
    // `inv as i32` is negative for stacks above i32::MAX
    let mut k = TradeAmountInput::new(slot(0, 1), String::new(), 3_000_000_000, true, 0);
    k.edit("5".to_string(), 0);
    assert_eq!(k.err.as_deref(), Some("out of range"));
    let k = TradeAmountInput::new(slot(0, 1), String::new(), 100, true, 0);
    assert!(!k.overflows(&"5".to_string(), 0));
    assert!(k.overflows(&"5".to_string(), 2_147_483_648));
    assert!(!k.overflows(&"5".to_string(), 3_000_000_000));
    assert!(!k.overflows(&"".to_string(), 2_000_000_000));
}

#[test]
fn panes_choose_name_view_and_inventory() {
    assert_eq!(display_name(Some("Ann".to_string()), Some("Bob".to_string())), Some("Ann".to_string()));
    assert_eq!(display_name(None, Some("Bob".to_string())), Some("Bob".to_string()));
    assert_eq!(display_name(None, None), None);
    assert_eq!(pane_view(TradePhase::Mutate), PaneView::Grid);
    assert_eq!(pane_view(TradePhase::Review), PaneView::ReviewList);
    assert_eq!(pane_view(TradePhase::Complete), PaneView::ReviewList);
    assert!(shows_inventory(false));
    assert!(!shows_inventory(true));
}

#[test]
fn offer_keys_cover_every_slot() {
    let mut o = TradeOffer::new();
    o.insert(slot(65535, 65535), 1);
    o.insert(slot(0, 0), 2);
    o.insert(slot(1, 0), 3);
    o.insert(slot(0, 65535), 4);
    assert_eq!(o.get(slot(65535, 65535)), Some(1));
    assert_eq!(o.get(slot(0, 0)), Some(2));
    assert_eq!(o.get(slot(1, 0)), Some(3));
    assert_eq!(o.get(slot(0, 65535)), Some(4));
    assert_eq!(o.get(slot(0, 1)), None);
    let mut v = o.to_vec();
    v.sort_by_key(|(s, _)| (s.loadout_idx, s.slot_idx));
    assert_eq!(v, vec![(slot(0, 0), 2), (slot(0, 65535), 4), (slot(1, 0), 3), (slot(65535, 65535), 1)]);
}

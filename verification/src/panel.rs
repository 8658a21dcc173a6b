//! The Skill Slot panel between turns: used cards leave, the cards above
//! slide down and a fresh card is drawn from the unit's skill composition.

use vstd::prelude::*;
use crate::ids::SkillId;
use crate::rng::{scale_below, xoshiro_output, xoshiro_step, Rng};
use crate::setup::empty_skill;
use crate::state::{
    deck_total, entries_view, lemma_pick_found, lemma_pick_lands_on_copy, lemma_positive_keeps_counts,
    lemma_take_copy_counts, panel_add, panel_consume, pick_from, positive, take_copy, first_entry,
    first_live_entry, DashboardSlot, SkillDeck, SlotView, SubmittedAction, Unit,
};

verus! {

/// A skill composition by view: every copy of the composition, the copies
/// not drawn yet, and the copies on the panel.
pub struct DeckView {
    pub comp: Seq<(Seq<char>, u32)>,
    pub rem: Seq<(Seq<char>, u32)>,
    pub pan: Seq<(Seq<char>, u32)>,
}

/// The battle RNG by view.
pub struct RngView {
    pub words: [u64; 4],
    pub draws: u64,
}

pub open spec fn deck_of(d: SkillDeck) -> DeckView {
    DeckView {
        comp: entries_view(d.composition@),
        rem: entries_view(d.remaining@),
        pan: entries_view(d.paneled@),
    }
}

pub open spec fn rng_of(r: Rng) -> RngView {
    RngView { words: r.words(), draws: r.draws() }
}

/// The views of a unit's slots.
pub open spec fn slot_views(d: Seq<DashboardSlot>) -> Seq<SlotView> {
    d.map_values(|s: DashboardSlot| s@)
}

/// Room for `n` more draws: both pools total at most `u32::MAX` copies and
/// no panel count reaches `u32::MAX` after `n` more copies.
pub open spec fn deck_room(d: DeckView, n: nat) -> bool {
    &&& deck_total(d.rem) <= u32::MAX
    &&& deck_total(d.comp) <= u32::MAX
    &&& n + 1 < u32::MAX
    &&& forall|j: int| 0 <= j < d.pan.len() ==> #[trigger] d.pan[j].1 + n < u32::MAX
}

/// One draw (see `SkillDeck::draw`): the pool refills from the composition
/// once empty; an empty composition draws nothing; otherwise the RNG picks
/// one of the copies left, which moves to the panel.
pub open spec fn draw_view(d: DeckView, g: RngView) -> (Option<Seq<char>>, DeckView, RngView) {
    let rem0 = if deck_total(d.rem) == 0 {
        d.comp
    } else {
        d.rem
    };
    if deck_total(rem0) == 0 {
        (None, DeckView { comp: d.comp, rem: rem0, pan: d.pan }, g)
    } else {
        let pick = scale_below(xoshiro_output(g.words), deck_total(rem0) as u32);
        let i = pick_from(rem0, 0, pick as int)->0;
        (
            Some(rem0[i].0),
            DeckView { comp: d.comp, rem: positive(take_copy(rem0, i)), pan: panel_add(d.pan, rem0[i].0) },
            RngView { words: xoshiro_step(g.words), draws: (g.draws + 1) as u64 },
        )
    }
}

/// The drawn card's text, "no skill" when nothing was drawn.
pub open spec fn card_of(drawn: Option<Seq<char>>) -> Seq<char> {
    match drawn {
        Some(s) => s,
        None => Seq::empty(),
    }
}

/// The deck after one copy of `used` left the panel.
pub open spec fn consume_view(d: DeckView, used: Seq<char>) -> DeckView {
    DeckView { comp: d.comp, rem: d.rem, pan: panel_consume(d.pan, used) }
}

proof fn lemma_positive_below(e: Seq<(Seq<char>, u32)>, bound: int)
    requires
        forall|j: int| 0 <= j < e.len() ==> #[trigger] e[j].1 < bound,
    ensures
        forall|j: int| 0 <= j < positive(e).len() ==> #[trigger] positive(e)[j].1 < bound,
    decreases e.len(),
{
    if e.len() > 0 {
        lemma_positive_below(e.drop_last(), bound);
        let rest = positive(e.drop_last());
        let tail = if e.last().1 > 0 {
            seq![e.last()]
        } else {
            Seq::empty()
        };
        assert forall|j: int| 0 <= j < positive(e).len() implies #[trigger] positive(e)[j].1 < bound by {
            if j < rest.len() {
                assert(positive(e)[j] == rest[j]);
            } else {
                assert(positive(e)[j] == tail[j - rest.len()]);
            }
        }
    }
}

proof fn lemma_first_live(p: Seq<(Seq<char>, u32)>, id: Seq<char>, i: int)
    requires
        0 <= i,
    ensures
        first_live_entry(p, id, i) matches Some(k) ==> i <= k < p.len() && p[k].1 > 0,
    decreases p.len() - i,
{
    if i < p.len() && !(p[i].0 == id && p[i].1 > 0) {
        lemma_first_live(p, id, i + 1);
    }
}

proof fn lemma_first_entry(p: Seq<(Seq<char>, u32)>, id: Seq<char>, i: int)
    requires
        0 <= i,
    ensures
        first_entry(p, id, i) matches Some(k) ==> i <= k < p.len() && p[k].0 == id,
    decreases p.len() - i,
{
    if i < p.len() && p[i].0 != id {
        lemma_first_entry(p, id, i + 1);
    }
}

/// Using a card keeps the room for draws.
proof fn lemma_consume_room(d: DeckView, used: Seq<char>, n: nat)
    requires
        deck_room(d, n),
    ensures
        deck_room(consume_view(d, used), n),
{
    let p = d.pan;
    lemma_first_live(p, used, 0);
    match first_live_entry(p, used, 0) {
        Some(k) => {
            let t = take_copy(p, k);
            assert forall|j: int| 0 <= j < t.len() implies #[trigger] t[j].1 < u32::MAX - n by {
                if j != k {
                    assert(t[j] == p[j]);
                }
            }
            lemma_positive_below(t, u32::MAX - n);
        },
        None => {
            assert forall|j: int| 0 <= j < p.len() implies #[trigger] p[j].1 < u32::MAX - n by {}
            lemma_positive_below(p, u32::MAX - n);
        },
    }
}

/// A draw uses one unit of room.
proof fn lemma_draw_room(d: DeckView, g: RngView, n: nat)
    requires
        deck_room(d, n + 1),
    ensures
        deck_room(draw_view(d, g).1, n),
{
    let rem0 = if deck_total(d.rem) == 0 {
        d.comp
    } else {
        d.rem
    };
    if deck_total(rem0) > 0 {
        let pick = scale_below(xoshiro_output(g.words), deck_total(rem0) as u32);
        assert(pick < deck_total(rem0)) by (nonlinear_arith)
            requires
                pick == scale_below(xoshiro_output(g.words), deck_total(rem0) as u32),
                0 < deck_total(rem0) <= u32::MAX,
        {
            let out = xoshiro_output(g.words);
            assert((out >> 32u64) < 0x1_0000_0000) by (bit_vector);
        }
        assert(rem0.subrange(0, 0) =~= Seq::<(Seq<char>, u32)>::empty());
        lemma_pick_found(rem0, 0, pick as int);
        lemma_pick_lands_on_copy(rem0, 0, pick as int);
        let i = pick_from(rem0, 0, pick as int)->0;
        lemma_take_copy_counts(rem0, i, rem0[i].0);
        lemma_positive_keeps_counts(take_copy(rem0, i), rem0[i].0);
        let p = d.pan;
        lemma_first_entry(p, rem0[i].0, 0);
        let q = panel_add(p, rem0[i].0);
        assert forall|j: int| 0 <= j < q.len() implies #[trigger] q[j].1 + n < u32::MAX by {
            if j < p.len() {
                assert(p[j].1 + n + 1 < u32::MAX);
            }
        }
    }
}

/// Draw one card for the panel; "no skill" when the composition is empty.
fn draw_or_empty(deck: &mut SkillDeck, rng: &mut Rng) -> (card: SkillId)
    requires
        deck_room(deck_of(*old(deck)), 1),
        old(rng).draws() < u64::MAX,
    ensures
        ({
            let (drawn, d, g) = draw_view(deck_of(*old(deck)), rng_of(*old(rng)));
            &&& card@ == card_of(drawn)
            &&& deck_of(*final(deck)) == d
            &&& rng_of(*final(rng)) == g
        }),
{
    proof {
        assert forall|j: int| 0 <= j < deck.paneled@.len() implies #[trigger] deck.paneled@[j].1 < u32::MAX by {
            assert(deck_of(*deck).pan[j].1 == deck.paneled@[j].1);
        }
    }
    let r = deck.draw(rng);
    match r {
        Some(s) => s,
        None => empty_skill(),
    }
}

/// The first slot from index `j` on whose number is `slot`.
pub open spec fn slot_at(slots: Seq<SlotView>, slot: u32, j: int) -> Option<int>
    decreases slots.len() - j,
{
    if j < 0 || j >= slots.len() {
        None
    } else if slots[j].slot == slot {
        Some(j)
    } else {
        slot_at(slots, slot, j + 1)
    }
}

proof fn lemma_slot_at(slots: Seq<SlotView>, slot: u32, j: int)
    requires
        0 <= j,
    ensures
        slot_at(slots, slot, j) matches Some(k) ==> j <= k < slots.len() && slots[k].slot == slot,
        slot_at(slots, slot, j) is None ==> forall|t: int| j <= t < slots.len() ==> slots[t].slot != slot,
    decreases slots.len() - j,
{
    if j < slots.len() && slots[j].slot != slot {
        lemma_slot_at(slots, slot, j + 1);
    }
}

/// The card a used slot gives up: the top card when it was used, else the
/// card a defense skill or E.G.O replaced, else the bottom card.
pub open spec fn used_card(e: SlotView, used_top: bool) -> Seq<char> {
    if used_top {
        e.next
    } else {
        match e.replaced {
            Some(r) => r,
            None => e.current,
        }
    }
}

/// A used slot after the turn: the used card is consumed and a card is
/// drawn.  When the top card was used the bottom card stays and the panel
/// refills from the top; otherwise the top card slides down.  The slot
/// loses its target and its conversion.  A unit without that slot is left
/// as it is.
pub open spec fn rotate_view(
    slots: Seq<SlotView>,
    d: DeckView,
    g: RngView,
    slot: u32,
    used_top: bool,
) -> (Seq<SlotView>, DeckView, RngView) {
    match slot_at(slots, slot, 0) {
        None => (slots, d, g),
        Some(j) => {
            let e = slots[j];
            let (drawn, d2, g2) = draw_view(consume_view(d, used_card(e, used_top)), g);
            let fresh = if used_top {
                SlotView { next: e.preview, preview: card_of(drawn), converted: false, replaced: None, target: None, ..e }
            } else {
                SlotView {
                    current: e.next,
                    next: e.preview,
                    preview: card_of(drawn),
                    converted: false,
                    replaced: None,
                    target: None,
                    ..e
                }
            };
            (slots.update(j, fresh), d2, g2)
        },
    }
}

/// Index of the first slot numbered `slot`.
fn find_slot(dash: &Vec<DashboardSlot>, slot: u32) -> (r: Option<usize>)
    ensures
        r matches Some(j) ==> slot_at(slot_views(dash@), slot, 0) == Some(j as int),
        r is None ==> slot_at(slot_views(dash@), slot, 0) is None,
{
    let ghost v = slot_views(dash@);
    let mut j: usize = 0;
    while j < dash.len()
        invariant
            j <= dash@.len(),
            v == slot_views(dash@),
            slot_at(v, slot, 0) == slot_at(v, slot, j as int),
        decreases dash.len() - j,
    {
        assert(v[j as int].slot == dash@[j as int].slot);
        if dash[j].slot == slot {
            return Some(j);
        }
        j = j + 1;
    }
    None
}

/// Copy of a slot (the view is kept).
fn copy_slot(e: &DashboardSlot) -> (c: DashboardSlot)
    ensures
        c@ == e@,
{
    DashboardSlot {
        slot: e.slot,
        current: e.current.duplicate(),
        next: e.next.duplicate(),
        preview: e.preview.duplicate(),
        target: match &e.target {
            Some(t) => Some(t.duplicate()),
            None => None,
        },
        converted: e.converted,
        replaced: match &e.replaced {
            Some(r) => Some(r.duplicate()),
            None => None,
        },
    }
}

proof fn lemma_slot_views_update(d: Seq<DashboardSlot>, j: int, e: DashboardSlot)
    requires
        0 <= j < d.len(),
    ensures
        slot_views(d.update(j, e)) == slot_views(d).update(j, e@),
{
    assert(slot_views(d.update(j, e)) =~= slot_views(d).update(j, e@));
}

/// Rotate one used slot of `unit` (see `rotate_view`); only its panel and
/// skill composition change.
pub fn rotate_slot(unit: &mut Unit, rng: &mut Rng, slot: u32, used_top: bool)
    requires
        deck_room(deck_of(old(unit).deck), 1),
        old(rng).draws() < u64::MAX,
    ensures
        (slot_views(final(unit).dashboard@), deck_of(final(unit).deck), rng_of(*final(rng))) == rotate_view(
            slot_views(old(unit).dashboard@),
            deck_of(old(unit).deck),
            rng_of(*old(rng)),
            slot,
            used_top,
        ),
        *final(unit) == (Unit { dashboard: final(unit).dashboard, deck: final(unit).deck, ..*old(unit) }),
{
    let j = match find_slot(&unit.dashboard, slot) {
        Some(j) => j,
        None => return,
    };
    proof {
        lemma_slot_at(slot_views(unit.dashboard@), slot, 0);
    }
    let e = copy_slot(&unit.dashboard[j]);
    assert(e@ == slot_views(old(unit).dashboard@)[j as int]);
    let used = if used_top {
        e.next.duplicate()
    } else {
        match &e.replaced {
            Some(r) => r.duplicate(),
            None => e.current.duplicate(),
        }
    };
    proof {
        lemma_consume_room(deck_of(unit.deck), used@, 1);
    }
    unit.deck.consume(&used);
    let drawn = draw_or_empty(&mut unit.deck, rng);
    let fresh = if used_top {
        DashboardSlot {
            slot: e.slot,
            current: e.current.duplicate(),
            next: e.preview.duplicate(),
            preview: drawn,
            target: None,
            converted: false,
            replaced: None,
        }
    } else {
        DashboardSlot {
            slot: e.slot,
            current: e.next.duplicate(),
            next: e.preview.duplicate(),
            preview: drawn,
            target: None,
            converted: false,
            replaced: None,
        }
    };
    let ghost before = unit.dashboard@;
    unit.dashboard.set(j, fresh);
    proof {
        lemma_slot_views_update(before, j as int, fresh);
    }
}

/// "[Discard]" the top card of a slot: it leaves the panel, the preview
/// slides into its place and a card is drawn.  Returns the discarded card;
/// nothing happens without that slot, or when `only_if_different` and both
/// visible cards are the same skill.
pub open spec fn discard_view(
    slots: Seq<SlotView>,
    d: DeckView,
    g: RngView,
    slot: u32,
    only_if_different: bool,
) -> (Option<Seq<char>>, Seq<SlotView>, DeckView, RngView) {
    match slot_at(slots, slot, 0) {
        None => (None, slots, d, g),
        Some(j) => {
            let e = slots[j];
            if only_if_different && e.next == e.current {
                (None, slots, d, g)
            } else {
                let (drawn, d2, g2) = draw_view(consume_view(d, e.next), g);
                (Some(e.next), slots.update(j, SlotView { next: e.preview, preview: card_of(drawn), ..e }), d2, g2)
            }
        },
    }
}

/// Discard the top card of one slot of `unit` (see `discard_view`); only its
/// panel and skill composition change.
pub fn discard_from_slot(unit: &mut Unit, rng: &mut Rng, slot: u32, only_if_different: bool) -> (discarded:
    Option<SkillId>)
    requires
        deck_room(deck_of(old(unit).deck), 1),
        old(rng).draws() < u64::MAX,
    ensures
        ({
            let (gone, slots, d, g) = discard_view(
                slot_views(old(unit).dashboard@),
                deck_of(old(unit).deck),
                rng_of(*old(rng)),
                slot,
                only_if_different,
            );
            &&& match discarded {
                Some(s) => gone == Some(s@),
                None => gone is None,
            }
            &&& slot_views(final(unit).dashboard@) == slots
            &&& deck_of(final(unit).deck) == d
            &&& rng_of(*final(rng)) == g
        }),
        *final(unit) == (Unit { dashboard: final(unit).dashboard, deck: final(unit).deck, ..*old(unit) }),
{
    let j = match find_slot(&unit.dashboard, slot) {
        Some(j) => j,
        None => return None,
    };
    proof {
        lemma_slot_at(slot_views(unit.dashboard@), slot, 0);
    }
    let e = copy_slot(&unit.dashboard[j]);
    assert(e@ == slot_views(old(unit).dashboard@)[j as int]);
    if only_if_different && e.next.same(&e.current) {
        return None;
    }
    proof {
        lemma_consume_room(deck_of(unit.deck), e.next@, 1);
    }
    unit.deck.consume(&e.next);
    let drawn = draw_or_empty(&mut unit.deck, rng);
    let discarded = e.next.duplicate();
    let fresh = DashboardSlot {
        slot: e.slot,
        current: e.current.duplicate(),
        next: e.preview.duplicate(),
        preview: drawn,
        target: e.target,
        converted: e.converted,
        replaced: e.replaced,
    };
    let ghost before = unit.dashboard@;
    unit.dashboard.set(j, fresh);
    proof {
        lemma_slot_views_update(before, j as int, fresh);
    }
    Some(discarded)
}

/// The bottom card of a slot leaves the panel: the cards above slide down and
/// a card is drawn.  A unit without that slot is left as it is.
pub open spec fn discard_bottom_view(
    slots: Seq<SlotView>,
    d: DeckView,
    g: RngView,
    slot: u32,
) -> (Seq<SlotView>, DeckView, RngView) {
    match slot_at(slots, slot, 0) {
        None => (slots, d, g),
        Some(j) => {
            let e = slots[j];
            let (drawn, d2, g2) = draw_view(consume_view(d, e.current), g);
            (slots.update(j, SlotView { current: e.next, next: e.preview, preview: card_of(drawn), ..e }), d2, g2)
        },
    }
}

/// `discard_bottom_view` on the slots numbered `nums`, in order.
pub open spec fn discard_bottoms_view(
    slots: Seq<SlotView>,
    d: DeckView,
    g: RngView,
    nums: Seq<u32>,
) -> (Seq<SlotView>, DeckView, RngView)
    decreases nums.len(),
{
    if nums.len() == 0 {
        (slots, d, g)
    } else {
        let (s1, d1, g1) = discard_bottoms_view(slots, d, g, nums.drop_last());
        discard_bottom_view(s1, d1, g1, nums.last())
    }
}

/// How many slots a discard of `count` reaches on a panel of `len` slots.
pub open spec fn reach(count: i32, len: nat) -> nat {
    if count <= 0 {
        0
    } else if count as nat > len {
        len
    } else {
        count as nat
    }
}

/// The slot numbers of a panel, in order.
pub open spec fn slot_numbers(slots: Seq<SlotView>) -> Seq<u32> {
    slots.map_values(|s: SlotView| s.slot)
}

/// "[Discard] N Skills of the lowest rank": the bottom cards of the first `N`
/// slots are discarded, in slot order (the rank is not known here, so the
/// first slots go).
pub fn discard_lowest_rank(unit: &mut Unit, rng: &mut Rng, count: i32)
    requires
        deck_room(deck_of(old(unit).deck), reach(count, old(unit).dashboard@.len())),
        old(rng).draws() + reach(count, old(unit).dashboard@.len()) <= u64::MAX,
    ensures
        (slot_views(final(unit).dashboard@), deck_of(final(unit).deck), rng_of(*final(rng)))
            == discard_bottoms_view(
            slot_views(old(unit).dashboard@),
            deck_of(old(unit).deck),
            rng_of(*old(rng)),
            slot_numbers(slot_views(old(unit).dashboard@)).take(
                reach(count, old(unit).dashboard@.len()) as int,
            ),
        ),
        *final(unit) == (Unit { dashboard: final(unit).dashboard, deck: final(unit).deck, ..*old(unit) }),
{
    let ghost s0 = slot_views(unit.dashboard@);
    let ghost d0 = deck_of(unit.deck);
    let ghost g0 = rng_of(*rng);
    let ghost u0 = *unit;
    let ghost nums = slot_numbers(s0);
    let n: usize = if count <= 0 {
        0
    } else if count as usize > unit.dashboard.len() {
        unit.dashboard.len()
    } else {
        count as usize
    };
    assert(n == reach(count, s0.len()));
    let mut numbers: Vec<u32> = Vec::new();
    let mut k: usize = 0;
    while k < n
        invariant
            k <= n <= unit.dashboard@.len(),
            s0 == slot_views(unit.dashboard@),
            nums == slot_numbers(s0),
            numbers@ == nums.take(k as int),
        decreases n - k,
    {
        numbers.push(unit.dashboard[k].slot);
        k = k + 1;
        assert(numbers@ =~= nums.take(k as int));
    }
    let mut i: usize = 0;
    while i < n
        invariant
            i <= n,
            n == reach(count, s0.len()),
            n <= nums.len(),
            numbers@.len() == n,
            numbers@ == nums.take(n as int),
            deck_room(deck_of(unit.deck), (n - i) as nat),
            rng.draws() + (n - i) <= u64::MAX,
            (slot_views(unit.dashboard@), deck_of(unit.deck), rng_of(*rng)) == discard_bottoms_view(
                s0,
                d0,
                g0,
                numbers@.take(i as int),
            ),
            *unit == (Unit { dashboard: unit.dashboard, deck: unit.deck, ..u0 }),
        decreases n - i,
    {
        let slot = numbers[i];
        let ghost s1 = slot_views(unit.dashboard@);
        let ghost d1 = deck_of(unit.deck);
        let ghost g1 = rng_of(*rng);
        match find_slot(&unit.dashboard, slot) {
            Some(j) => {
                proof {
                    lemma_slot_at(slot_views(unit.dashboard@), slot, 0);
                }
                let e = copy_slot(&unit.dashboard[j]);
                assert(e@ == s1[j as int]);
                proof {
                    lemma_consume_room(deck_of(unit.deck), e.current@, (n - i) as nat);
                    lemma_draw_room(consume_view(d1, e.current@), g1, (n - i - 1) as nat);
                }
                unit.deck.consume(&e.current);
                let drawn = draw_or_empty(&mut unit.deck, rng);
                let fresh = DashboardSlot {
                    slot: e.slot,
                    current: e.next.duplicate(),
                    next: e.preview.duplicate(),
                    preview: drawn,
                    target: e.target,
                    converted: e.converted,
                    replaced: e.replaced,
                };
                let ghost before = unit.dashboard@;
                unit.dashboard.set(j, fresh);
                proof {
                    lemma_slot_views_update(before, j as int, fresh);
                }
            },
            None => {
                proof {
                    assert(deck_room(d1, (n - i - 1) as nat));
                }
            },
        }
        proof {
            assert(numbers@.take(i + 1).drop_last() =~= numbers@.take(i as int));
            assert(numbers@.take(i + 1).last() == slot);
        }
        i = i + 1;
    }
    proof {
        assert(numbers@.take(n as int) =~= nums.take(n as int));
    }
}

/// The slots to rotate: those executed this turn, then the defense slots
/// used that are not listed yet, each once.
pub open spec fn merged(executed: Seq<(usize, u32)>, defense: Seq<(usize, u32)>) -> Seq<(usize, u32)>
    decreases defense.len(),
{
    if defense.len() == 0 {
        executed
    } else {
        let m = merged(executed, defense.drop_last());
        if m.contains(defense.last()) {
            m
        } else {
            m.push(defense.last())
        }
    }
}

/// Whether the first action of `actor` on `slot` (from index `i` on) used
/// the top card; `false` when there is none.
pub open spec fn used_top_from(actions: Seq<SubmittedAction>, actor: Seq<char>, slot: u32, i: int) -> bool
    decreases actions.len() - i,
{
    if i < 0 || i >= actions.len() {
        false
    } else if actions[i].actor@ == actor && actions[i].slot == slot {
        actions[i].used_top
    } else {
        used_top_from(actions, actor, slot, i + 1)
    }
}

/// The panel and skill composition of each unit.
pub open spec fn panels_of(units: Seq<Unit>) -> Seq<(Seq<SlotView>, DeckView)> {
    units.map_values(|u: Unit| (slot_views(u.dashboard@), deck_of(u.deck)))
}

/// `rotate_view` for each listed (unit, slot), in order.
pub open spec fn rotate_all(
    panels: Seq<(Seq<SlotView>, DeckView)>,
    g: RngView,
    ids: Seq<Seq<char>>,
    actions: Seq<SubmittedAction>,
    entries: Seq<(usize, u32)>,
) -> (Seq<(Seq<SlotView>, DeckView)>, RngView)
    decreases entries.len(),
{
    if entries.len() == 0 {
        (panels, g)
    } else {
        let (ps, g1) = rotate_all(panels, g, ids, actions, entries.drop_last());
        let (u, slot) = entries.last();
        let (s2, d2, g2) = rotate_view(
            ps[u as int].0,
            ps[u as int].1,
            g1,
            slot,
            used_top_from(actions, ids[u as int], slot, 0),
        );
        (ps.update(u as int, (s2, d2)), g2)
    }
}

/// The ids of the units.
pub open spec fn unit_ids(units: Seq<Unit>) -> Seq<Seq<char>> {
    units.map_values(|u: Unit| u.id@)
}

proof fn lemma_room_monotone(d: DeckView, n: nat, m: nat)
    requires
        deck_room(d, n),
        m <= n,
    ensures
        deck_room(d, m),
{
}

fn contains_entry(all: &Vec<(usize, u32)>, entry: (usize, u32)) -> (b: bool)
    ensures
        b == all@.contains(entry),
{
    let mut k: usize = 0;
    while k < all.len()
        invariant
            k <= all@.len(),
            forall|t: int| 0 <= t < k ==> all@[t] != entry,
        decreases all.len() - k,
    {
        if all[k].0 == entry.0 && all[k].1 == entry.1 {
            assert(all@[k as int] == entry);
            return true;
        }
        k = k + 1;
    }
    false
}

fn used_top_of(actions: &Vec<SubmittedAction>, actor: &crate::ids::UnitId, slot: u32) -> (b: bool)
    ensures
        b == used_top_from(actions@, actor@, slot, 0),
{
    let mut k: usize = 0;
    while k < actions.len()
        invariant
            k <= actions@.len(),
            used_top_from(actions@, actor@, slot, 0) == used_top_from(actions@, actor@, slot, k as int),
        decreases actions.len() - k,
    {
        if actions[k].actor.same(actor) && actions[k].slot == slot {
            return actions[k].used_top;
        }
        k = k + 1;
    }
    false
}

/// Turn End: every slot used this turn rotates (see `rotate_view`), those
/// executed first, then the defense slots not listed yet; the list of used
/// defense slots is emptied.  Only panels, skill compositions and the RNG
/// change.
pub fn rotate_used_slots(
    units: &mut Vec<Unit>,
    rng: &mut Rng,
    actions: &Vec<SubmittedAction>,
    executed: &Vec<(usize, u32)>,
    defense_slots_used: &mut Vec<(usize, u32)>,
)
    requires
        forall|t: int|
            0 <= t < merged(executed@, old(defense_slots_used)@).len() ==> (#[trigger] merged(
                executed@,
                old(defense_slots_used)@,
            )[t]).0 < old(units)@.len(),
        forall|k: int|
            0 <= k < old(units)@.len() ==> deck_room(
                deck_of(#[trigger] old(units)@[k].deck),
                merged(executed@, old(defense_slots_used)@).len(),
            ),
        old(rng).draws() + merged(executed@, old(defense_slots_used)@).len() <= u64::MAX,
    ensures
        final(defense_slots_used)@.len() == 0,
        final(units)@.len() == old(units)@.len(),
        (panels_of(final(units)@), rng_of(*final(rng))) == rotate_all(
            panels_of(old(units)@),
            rng_of(*old(rng)),
            unit_ids(old(units)@),
            actions@,
            merged(executed@, old(defense_slots_used)@),
        ),
        forall|k: int|
            0 <= k < old(units)@.len() ==> #[trigger] final(units)@[k] == (Unit {
                dashboard: final(units)@[k].dashboard,
                deck: final(units)@[k].deck,
                ..old(units)@[k]
            }),
{
    let ghost defense0 = defense_slots_used@;
    let mut all: Vec<(usize, u32)> = Vec::new();
    let mut k: usize = 0;
    while k < executed.len()
        invariant
            k <= executed@.len(),
            all@ == executed@.take(k as int),
        decreases executed.len() - k,
    {
        all.push(executed[k]);
        k = k + 1;
        assert(all@ =~= executed@.take(k as int));
    }
    assert(executed@.take(executed@.len() as int) =~= executed@);
    let mut t: usize = 0;
    while t < defense_slots_used.len()
        invariant
            t <= defense0.len(),
            defense_slots_used@ == defense0,
            all@ == merged(executed@, defense0.take(t as int)),
        decreases defense_slots_used.len() - t,
    {
        let entry = defense_slots_used[t];
        proof {
            assert(defense0.take(t + 1).drop_last() =~= defense0.take(t as int));
        }
        if !contains_entry(&all, entry) {
            all.push(entry);
        }
        t = t + 1;
    }
    assert(defense0.take(defense0.len() as int) =~= defense0);
    defense_slots_used.clear();
    let ghost u0 = units@;
    let ghost ids = unit_ids(u0);
    let ghost p0 = panels_of(u0);
    let ghost g0 = rng_of(*rng);
    let ghost total = all@.len();
    let mut i: usize = 0;
    while i < all.len()
        invariant
            i <= all@.len(),
            total == all@.len(),
            all@ == merged(executed@, defense0),
            units@.len() == u0.len(),
            ids == unit_ids(u0),
            forall|t: int| 0 <= t < all@.len() ==> (#[trigger] all@[t]).0 < u0.len(),
            forall|k: int| 0 <= k < units@.len() ==> deck_room(deck_of(#[trigger] units@[k].deck), (total - i) as nat),
            rng.draws() + (total - i) <= u64::MAX,
            (panels_of(units@), rng_of(*rng)) == rotate_all(p0, g0, ids, actions@, all@.take(i as int)),
            forall|k: int|
                0 <= k < u0.len() ==> #[trigger] units@[k] == (Unit {
                    dashboard: units@[k].dashboard,
                    deck: units@[k].deck,
                    ..u0[k]
                }),
        decreases all.len() - i,
    {
        let (idx, slot) = all[i];
        assert(all@[i as int].0 < u0.len());
        let used_top = used_top_of(actions, &units[idx].id, slot);
        assert(units@[idx as int].id == u0[idx as int].id);
        let ghost before = units@;
        let ghost g1 = rng_of(*rng);
        let mut u = units.remove(idx);
        proof {
            assert(u == before[idx as int]);
            assert(deck_room(deck_of(u.deck), (total - i) as nat));
        }
        let ghost ub = u;
        rotate_slot(&mut u, rng, slot, used_top);
        units.insert(idx, u);
        proof {
            assert(units@ =~= before.update(idx as int, u));
            let taken = all@.take(i + 1);
            assert(taken.drop_last() =~= all@.take(i as int));
            assert(taken.last() == (idx, slot));
            assert(ids[idx as int] == u0[idx as int].id@);
            assert(panels_of(before)[idx as int] == (slot_views(ub.dashboard@), deck_of(ub.deck)));
            assert(panels_of(units@) =~= panels_of(before).update(
                idx as int,
                (slot_views(u.dashboard@), deck_of(u.deck)),
            ));
            lemma_consume_and_draw_room(slot_views(ub.dashboard@), deck_of(ub.deck), g1, slot, used_top, (total - i - 1) as nat);
            assert forall|k: int| 0 <= k < units@.len() implies deck_room(
                deck_of(#[trigger] units@[k].deck),
                (total - i - 1) as nat,
            ) by {
                if k != idx {
                    assert(units@[k] == before[k]);
                    lemma_room_monotone(deck_of(before[k].deck), (total - i) as nat, (total - i - 1) as nat);
                }
            }
        }
        i = i + 1;
    }
    assert(all@.take(all@.len() as int) =~= all@);
}

/// A rotation uses one unit of room and at most one draw.
proof fn lemma_consume_and_draw_room(slots: Seq<SlotView>, d: DeckView, g: RngView, slot: u32, used_top: bool, n: nat)
    requires
        deck_room(d, n + 1),
    ensures
        deck_room(rotate_view(slots, d, g, slot, used_top).1, n),
        rotate_view(slots, d, g, slot, used_top).2.draws <= g.draws + 1,
{
    match slot_at(slots, slot, 0) {
        None => {},
        Some(j) => {
            let e = slots[j];
            lemma_consume_room(d, used_card(e, used_top), n + 1);
            lemma_draw_room(consume_view(d, used_card(e, used_top)), g, n);
        },
    }
}

/// A rotation or a discard keeps the shape of the panel: as many slots,
/// with the same numbers, and it draws at most one card.
pub proof fn panel_keeps_its_slots(slots: Seq<SlotView>, d: DeckView, g: RngView, slot: u32, used_top: bool, only_if_different: bool)
    ensures
        slot_numbers(rotate_view(slots, d, g, slot, used_top).0) == slot_numbers(slots),
        slot_numbers(discard_view(slots, d, g, slot, only_if_different).1) == slot_numbers(slots),
        slot_numbers(discard_bottom_view(slots, d, g, slot).0) == slot_numbers(slots),
        rotate_view(slots, d, g, slot, used_top).2.draws <= g.draws + 1,
{
    lemma_slot_at(slots, slot, 0);
    assert(slot_numbers(rotate_view(slots, d, g, slot, used_top).0) =~= slot_numbers(slots));
    assert(slot_numbers(discard_view(slots, d, g, slot, only_if_different).1) =~= slot_numbers(slots));
    assert(slot_numbers(discard_bottom_view(slots, d, g, slot).0) =~= slot_numbers(slots));
}

/// A card of the panel once filled: a draw when it is empty, the card
/// itself otherwise.
pub open spec fn fill_view(card: Seq<char>, d: DeckView, g: RngView) -> (Seq<char>, DeckView, RngView) {
    if card.len() == 0 {
        let (x, d1, g1) = draw_view(d, g);
        (card_of(x), d1, g1)
    } else {
        (card, d, g)
    }
}

/// A slot once its empty cards were filled: bottom, then top, then preview.
pub open spec fn refill_entry(e: SlotView, d: DeckView, g: RngView) -> (SlotView, DeckView, RngView) {
    let (c, d1, g1) = fill_view(e.current, d, g);
    let (n, d2, g2) = fill_view(e.next, d1, g1);
    let (p, d3, g3) = fill_view(e.preview, d2, g2);
    (SlotView { current: c, next: n, preview: p, ..e }, d3, g3)
}

/// The panel once the first `k` slot numbers, in panel order, were
/// refilled; each refills the first slot with that number.
pub open spec fn refill_view(slots: Seq<SlotView>, d: DeckView, g: RngView, k: nat) -> (
    Seq<SlotView>,
    DeckView,
    RngView,
)
    decreases k,
{
    if k == 0 {
        (slots, d, g)
    } else {
        let (s1, d1, g1) = refill_view(slots, d, g, (k - 1) as nat);
        match slot_at(s1, slots[k - 1].slot, 0) {
            Some(f) => {
                let (e, d2, g2) = refill_entry(s1[f], d1, g1);
                (s1.update(f, e), d2, g2)
            },
            None => (s1, d1, g1),
        }
    }
}

/// Filling a card uses at most one unit of room and one value of the RNG.
proof fn lemma_fill_room(card: Seq<char>, d: DeckView, g: RngView, n: nat)
    requires
        deck_room(d, n + 1),
        g.draws < u64::MAX,
    ensures
        deck_room(fill_view(card, d, g).1, n),
        fill_view(card, d, g).2.draws <= g.draws + 1,
{
    if card.len() == 0 {
        lemma_draw_room(d, g, n);
    } else {
        lemma_room_monotone(d, n + 1, n);
    }
}

fn fill_card(card: &SkillId, deck: &mut SkillDeck, rng: &mut Rng) -> (r: SkillId)
    requires
        deck_room(deck_of(*old(deck)), 1),
        old(rng).draws() < u64::MAX,
    ensures
        (r@, deck_of(*final(deck)), rng_of(*final(rng))) == fill_view(card@, deck_of(*old(deck)), rng_of(*old(rng))),
{
    if card.as_str().is_empty() {
        draw_or_empty(deck, rng)
    } else {
        card.duplicate()
    }
}

/// Turn Start: every empty card of `unit`'s panel is drawn (see
/// `refill_view`); only its panel and skill composition change.
pub fn refill_panel(unit: &mut Unit, rng: &mut Rng)
    requires
        deck_room(deck_of(old(unit).deck), 3 * old(unit).dashboard@.len()),
        old(rng).draws() + 3 * old(unit).dashboard@.len() < u64::MAX,
    ensures
        (slot_views(final(unit).dashboard@), deck_of(final(unit).deck), rng_of(*final(rng))) == refill_view(
            slot_views(old(unit).dashboard@),
            deck_of(old(unit).deck),
            rng_of(*old(rng)),
            old(unit).dashboard@.len(),
        ),
        *final(unit) == (Unit { dashboard: final(unit).dashboard, deck: final(unit).deck, ..*old(unit) }),
        final(rng).draws() <= old(rng).draws() + 3 * old(unit).dashboard@.len(),
{
    let ghost v0 = slot_views(unit.dashboard@);
    let ghost d0 = deck_of(unit.deck);
    let ghost g0 = rng_of(*rng);
    let ghost u0 = *unit;
    let n = unit.dashboard.len();
    let mut k: usize = 0;
    while k < n
        invariant
            k <= n,
            n == v0.len(),
            unit.dashboard@.len() == n,
            forall|t: int| 0 <= t < n ==> (#[trigger] slot_views(unit.dashboard@)[t]).slot == v0[t].slot,
            (slot_views(unit.dashboard@), deck_of(unit.deck), rng_of(*rng)) == refill_view(v0, d0, g0, k as nat),
            deck_room(deck_of(unit.deck), 3 * (n - k) as nat),
            rng.draws() <= g0.draws + 3 * k,
            g0.draws + 3 * n < u64::MAX,
            *unit == (Unit { dashboard: unit.dashboard, deck: unit.deck, ..u0 }),
        decreases n - k,
    {
        let number = unit.dashboard[k].slot;
        proof {
            assert(slot_views(unit.dashboard@)[k as int].slot == number);
        }
        match find_slot(&unit.dashboard, number) {
            Some(f) => {
                proof {
                    lemma_slot_at(slot_views(unit.dashboard@), number, 0);
                }
                let e = copy_slot(&unit.dashboard[f]);
                assert(e@ == slot_views(unit.dashboard@)[f as int]);
                let ghost da = deck_of(unit.deck);
                let ghost ga = rng_of(*rng);
                proof {
                    lemma_fill_room(e@.current, da, ga, (3 * (n - k) - 1) as nat);
                }
                let current = fill_card(&e.current, &mut unit.deck, rng);
                let ghost db = deck_of(unit.deck);
                let ghost gb = rng_of(*rng);
                proof {
                    lemma_fill_room(e@.next, db, gb, (3 * (n - k) - 2) as nat);
                }
                let next = fill_card(&e.next, &mut unit.deck, rng);
                let ghost dc = deck_of(unit.deck);
                let ghost gc = rng_of(*rng);
                proof {
                    lemma_fill_room(e@.preview, dc, gc, (3 * (n - k) - 3) as nat);
                }
                let preview = fill_card(&e.preview, &mut unit.deck, rng);
                let fresh = DashboardSlot {
                    slot: e.slot,
                    current,
                    next,
                    preview,
                    target: e.target,
                    converted: e.converted,
                    replaced: e.replaced,
                };
                let ghost before = unit.dashboard@;
                unit.dashboard.set(f, fresh);
                proof {
                    lemma_slot_views_update(before, f as int, fresh);
                    assert(v0[k as int].slot == number);
                }
            },
            None => {
                proof {
                    lemma_room_monotone(deck_of(unit.deck), 3 * (n - k) as nat, 3 * (n - k - 1) as nat);
                }
            },
        }
        k = k + 1;
    }
}

} // verus!

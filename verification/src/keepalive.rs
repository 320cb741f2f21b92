//! GPU keep-alive: which background tasks run, by reference count per GPU.
//!
//! Usage is counted per PCI slot. Every instance on a GPU holds one reference,
//! given back exactly once when the instance is unregistered.

use vstd::prelude::*;
use crate::config::{GpuKeepAlive, KeepAliveConfig};
use crate::gpu::{pci_slots_of, uevent_slots};
use crate::names::NameMap;
use crate::numbers::{decimal, to_decimal};
use crate::text::{lemma_replace_one, replace, replace_str, same_text, texts};

verus! {

/// Decides which keep-alive tasks run.
pub struct KeepAliveManager {
    /// Number of instances on each GPU, by PCI slot.
    pub refcounts: NameMap<usize>,
    /// PCI slot → sysfs card index.
    pub slot_to_card: NameMap<usize>,
    /// The command and its interval.
    pub cfg: GpuKeepAlive,
}

/// What is to be done with a keep-alive task.
#[derive(Debug)]
pub enum KeepAliveAction {
    /// Run the command every `sleep` seconds, until stopped.
    Start { slot: String, card: usize, cmd: String, sleep: u64 },
    /// End the task of the slot.
    Stop { slot: String },
}

/// An action in terms of texts.
pub enum ActionView {
    Start { slot: Seq<char>, card: usize, cmd: Seq<char>, sleep: u64 },
    Stop { slot: Seq<char> },
}

impl View for KeepAliveAction {
    type V = ActionView;

    open spec fn view(&self) -> ActionView {
        match self {
            KeepAliveAction::Start { slot, card, cmd, sleep } => ActionView::Start {
                slot: slot@,
                card: *card,
                cmd: cmd@,
                sleep: *sleep,
            },
            KeepAliveAction::Stop { slot } => ActionView::Stop { slot: slot@ },
        }
    }
}

/// Actions in terms of texts.
pub open spec fn action_views(actions: Seq<KeepAliveAction>) -> Seq<ActionView> {
    actions.map_values(|a: KeepAliveAction| a@)
}

/// What a manager holds.
#[verifier::ext_equal]
pub struct KeepAliveView {
    pub counts: Map<Seq<char>, usize>,
    pub cards: Map<Seq<char>, usize>,
    pub cmd: Seq<char>,
    pub sleep: u64,
}

impl View for KeepAliveManager {
    type V = KeepAliveView;

    open spec fn view(&self) -> KeepAliveView {
        KeepAliveView {
            counts: self.refcounts@,
            cards: self.slot_to_card@,
            cmd: self.cfg.cmd@,
            sleep: self.cfg.sleep,
        }
    }
}

/// The next count; the largest number stays.
pub open spec fn one_more(count: usize) -> usize {
    if count == usize::MAX {
        count
    } else {
        (count + 1) as usize
    }
}

/// Computes the next count.
pub fn count_up(count: usize) -> (r: usize)
    ensures
        r == one_more(count),
{
    if count == usize::MAX {
        count
    } else {
        count + 1
    }
}

/// The slots whose tasks run: those in use that have a card.
pub open spec fn running(v: KeepAliveView) -> Set<Seq<char>> {
    v.counts.dom().intersect(v.cards.dom())
}

/// The references to a slot.
pub open spec fn count_of(v: KeepAliveView, slot: Seq<char>) -> usize {
    if v.counts.dom().contains(slot) {
        v.counts[slot]
    } else {
        0
    }
}

/// One reference more.
pub open spec fn acquired(v: KeepAliveView, slot: Seq<char>) -> KeepAliveView {
    KeepAliveView { counts: v.counts.insert(slot, one_more(count_of(v, slot))), ..v }
}

/// What one more reference brings about: the task starts with the first, where
/// the slot has a card.
pub open spec fn acquire_action(v: KeepAliveView, slot: Seq<char>) -> Option<ActionView> {
    if count_of(v, slot) == 0 && v.cards.dom().contains(slot) {
        Some(
            ActionView::Start {
                slot,
                card: v.cards[slot],
                cmd: replace(v.cmd, "{index}"@, decimal(v.cards[slot] as nat)),
                sleep: v.sleep,
            },
        )
    } else {
        None
    }
}

/// One reference less; a reference that nobody holds is not given back.
pub open spec fn released(v: KeepAliveView, slot: Seq<char>) -> KeepAliveView {
    if count_of(v, slot) > 1 {
        KeepAliveView { counts: v.counts.insert(slot, (count_of(v, slot) - 1) as usize), ..v }
    } else {
        KeepAliveView { counts: v.counts.remove(slot), ..v }
    }
}

/// What one reference less brings about: the task stops with the last.
pub open spec fn release_action(v: KeepAliveView, slot: Seq<char>) -> Option<ActionView> {
    if v.counts.dom().contains(slot) && v.counts[slot] <= 1 && v.cards.dom().contains(slot) {
        Some(ActionView::Stop { slot })
    } else {
        None
    }
}

/// An action as a sequence.
pub open spec fn as_seq(a: Option<ActionView>) -> Seq<ActionView> {
    match a {
        Some(x) => seq![x],
        None => Seq::empty(),
    }
}

/// References to several slots, in order.
pub open spec fn acquired_all(v: KeepAliveView, slots: Seq<Seq<char>>) -> KeepAliveView
    decreases slots.len(),
{
    if slots.len() == 0 {
        v
    } else {
        acquired(acquired_all(v, slots.drop_last()), slots.last())
    }
}

/// What they bring about.
pub open spec fn acquire_actions(v: KeepAliveView, slots: Seq<Seq<char>>) -> Seq<ActionView>
    decreases slots.len(),
{
    if slots.len() == 0 {
        Seq::empty()
    } else {
        acquire_actions(v, slots.drop_last()) + as_seq(
            acquire_action(acquired_all(v, slots.drop_last()), slots.last()),
        )
    }
}

/// References to several slots given back, in order.
pub open spec fn released_all(v: KeepAliveView, slots: Seq<Seq<char>>) -> KeepAliveView
    decreases slots.len(),
{
    if slots.len() == 0 {
        v
    } else {
        released(released_all(v, slots.drop_last()), slots.last())
    }
}

/// What that brings about.
pub open spec fn release_actions(v: KeepAliveView, slots: Seq<Seq<char>>) -> Seq<ActionView>
    decreases slots.len(),
{
    if slots.len() == 0 {
        Seq::empty()
    } else {
        release_actions(v, slots.drop_last()) + as_seq(
            release_action(released_all(v, slots.drop_last()), slots.last()),
        )
    }
}

/// The AMD section of a keep-alive configuration.
pub open spec fn amd_section(cfg: Option<KeepAliveConfig>) -> Option<GpuKeepAlive> {
    match cfg {
        Some(k) => k.amd,
        None => None,
    }
}

impl KeepAliveManager {
    /// Both tables have distinct names.
    pub open spec fn wf(&self) -> bool {
        self.refcounts.wf() && self.slot_to_card.wf()
    }

    /// Creates a manager from the keep-alive configuration and the card
    /// numbers of the PCI slots; none where no keep-alive is configured.
    pub fn new(cfg: Option<KeepAliveConfig>, slot_to_card: NameMap<usize>) -> (r: Option<
        KeepAliveManager,
    >)
        requires
            slot_to_card.wf(),
        ensures
            r is Some <==> amd_section(cfg) is Some,
            r matches Some(m) ==> m.wf() && m@ == (KeepAliveView {
                counts: Map::empty(),
                cards: slot_to_card@,
                cmd: amd_section(cfg)->0.cmd@,
                sleep: amd_section(cfg)->0.sleep,
            }),
    {
        match cfg {
            Some(k) => match k.amd {
                Some(amd) => Some(
                    KeepAliveManager { refcounts: NameMap::new(), slot_to_card, cfg: amd },
                ),
                None => None,
            },
            None => None,
        }
    }

    /// Registers an instance on the GPU at `pci_slot`. The task starts when
    /// the first instance lands on the GPU.
    pub fn acquire(&mut self, pci_slot: &str) -> (r: Option<KeepAliveAction>)
        requires
            old(self).wf(),
        ensures
            final(self).wf(),
            final(self)@ == acquired(old(self)@, pci_slot@),
            r is Some <==> acquire_action(old(self)@, pci_slot@) is Some,
            r matches Some(a) ==> Some(a@) == acquire_action(old(self)@, pci_slot@),
    {
        let count: usize = match self.refcounts.get(pci_slot) {
            Some(c) => *c,
            None => 0,
        };
        self.refcounts.insert(pci_slot, count_up(count));
        if count == 0 {
            self.start_task(pci_slot)
        } else {
            None
        }
    }

    /// The task of a slot; none where the slot is not in sysfs.
    fn start_task(&self, pci_slot: &str) -> (r: Option<KeepAliveAction>)
        requires
            self.wf(),
        ensures
            r is Some <==> self@.cards.dom().contains(pci_slot@),
            r matches Some(a) ==> a@ == (ActionView::Start {
                slot: pci_slot@,
                card: self@.cards[pci_slot@],
                cmd: replace(
                    self@.cmd,
                    "{index}"@,
                    decimal(self@.cards[pci_slot@] as nat),
                ),
                sleep: self@.sleep,
            }),
    {
        match self.slot_to_card.get(pci_slot) {
            Some(card) => {
                let number = to_decimal(*card as u64);
                proof {
                    reveal_strlit("{index}");
                }
                let cmd = replace_str(self.cfg.cmd.as_str(), "{index}", number.as_str());
                Some(
                    KeepAliveAction::Start {
                        slot: pci_slot.to_owned(),
                        card: *card,
                        cmd,
                        sleep: self.cfg.sleep,
                    },
                )
            },
            None => None,
        }
    }

    /// Unregisters an instance from the GPU at `pci_slot`. The task stops when
    /// the last instance leaves the GPU.
    pub fn release(&mut self, pci_slot: &str) -> (r: Option<KeepAliveAction>)
        requires
            old(self).wf(),
        ensures
            final(self).wf(),
            final(self)@ == released(old(self)@, pci_slot@),
            r is Some <==> release_action(old(self)@, pci_slot@) is Some,
            r matches Some(a) ==> Some(a@) == release_action(old(self)@, pci_slot@),
    {
        let count: usize = match self.refcounts.get(pci_slot) {
            Some(c) => *c,
            None => {
                assert(self@.counts.remove(pci_slot@) =~= self@.counts);
                return None;
            },
        };
        if count > 1 {
            self.refcounts.insert(pci_slot, count - 1);
            return None;
        }
        let _ = self.refcounts.remove(pci_slot);
        if self.slot_to_card.contains(pci_slot) {
            Some(KeepAliveAction::Stop { slot: pci_slot.to_owned() })
        } else {
            None
        }
    }

    /// Registers an instance on several GPUs.
    pub fn acquire_slots(&mut self, slots: &Vec<String>) -> (r: Vec<KeepAliveAction>)
        requires
            old(self).wf(),
        ensures
            final(self).wf(),
            final(self)@ == acquired_all(old(self)@, texts(slots@)),
            action_views(r@) == acquire_actions(old(self)@, texts(slots@)),
    {
        let mut out: Vec<KeepAliveAction> = Vec::new();
        let ghost all = texts(slots@);
        assert(all.take(0) =~= Seq::<Seq<char>>::empty());
        assert(action_views(out@) =~= Seq::<ActionView>::empty());
        for i in 0..slots.len()
            invariant
                self.wf(),
                all == texts(slots@),
                self@ == acquired_all(old(self)@, all.take(i as int)),
                action_views(out@) == acquire_actions(old(self)@, all.take(i as int)),
        {
            proof {
                assert(all.take(i + 1).drop_last() =~= all.take(i as int));
                assert(all.take(i + 1).last() == slots@[i as int]@);
            }
            let ghost before = out@;
            if let Some(a) = self.acquire(slots[i].as_str()) {
                out.push(a);
                assert(action_views(out@) =~= action_views(before) + seq![a@]);
            } else {
                assert(action_views(out@) =~= action_views(before) + Seq::<ActionView>::empty());
            }
        }
        assert(all.take(all.len() as int) =~= all);
        out
    }

    /// Unregisters an instance from several GPUs.
    pub fn release_slots(&mut self, slots: &Vec<String>) -> (r: Vec<KeepAliveAction>)
        requires
            old(self).wf(),
        ensures
            final(self).wf(),
            final(self)@ == released_all(old(self)@, texts(slots@)),
            action_views(r@) == release_actions(old(self)@, texts(slots@)),
    {
        let mut out: Vec<KeepAliveAction> = Vec::new();
        let ghost all = texts(slots@);
        assert(all.take(0) =~= Seq::<Seq<char>>::empty());
        assert(action_views(out@) =~= Seq::<ActionView>::empty());
        for i in 0..slots.len()
            invariant
                self.wf(),
                all == texts(slots@),
                self@ == released_all(old(self)@, all.take(i as int)),
                action_views(out@) == release_actions(old(self)@, all.take(i as int)),
        {
            proof {
                assert(all.take(i + 1).drop_last() =~= all.take(i as int));
                assert(all.take(i + 1).last() == slots@[i as int]@);
            }
            let ghost before = out@;
            if let Some(a) = self.release(slots[i].as_str()) {
                out.push(a);
                assert(action_views(out@) =~= action_views(before) + seq![a@]);
            } else {
                assert(action_views(out@) =~= action_views(before) + Seq::<ActionView>::empty());
            }
        }
        assert(all.take(all.len() as int) =~= all);
        out
    }

    /// Whether this manager was built from the same keep-alive configuration.
    pub fn matches(&self, cfg: &Option<KeepAliveConfig>) -> (r: bool)
        ensures
            r == (amd_section(*cfg) matches Some(amd) && amd.cmd@ == self@.cmd && amd.sleep
                == self@.sleep),
    {
        match cfg {
            Some(k) => match &k.amd {
                Some(amd) => same_text(amd.cmd.as_str(), self.cfg.cmd.as_str()) && amd.sleep
                    == self.cfg.sleep,
                None => false,
            },
            None => false,
        }
    }

    /// Stops all tasks and resets the counts.
    pub fn stop_all(&mut self) -> (r: Vec<KeepAliveAction>)
        requires
            old(self).wf(),
        ensures
            final(self).wf(),
            final(self)@ == (KeepAliveView { counts: Map::empty(), ..old(self)@ }),
            stops_exactly(action_views(r@), running(old(self)@)),
    {
        let mut out: Vec<KeepAliveAction> = Vec::new();
        let ghost entries = self.refcounts.entries@;
        for i in 0..self.refcounts.entries.len()
            invariant
                self.wf(),
                *self == *old(self),
                entries == self.refcounts.entries@,
                forall|k: int|
                    0 <= k < out@.len() ==> #[trigger] stops_running(
                        out@[k]@,
                        running(old(self)@),
                    ),
                forall|j: int|
                    0 <= j < i && self@.cards.dom().contains((#[trigger] entries[j]).0@)
                        ==> stop_listed(action_views(out@), entries[j].0@),
        {
            proof {
                crate::names::lemma_entry(entries, i as int);
            }
            let ghost before = out@;
            if self.slot_to_card.contains(self.refcounts.entries[i].0.as_str()) {
                out.push(KeepAliveAction::Stop { slot: self.refcounts.entries[i].0.clone() });
                let ghost added = ActionView::Stop { slot: entries[i as int].0@ };
                assert(action_views(out@) =~= action_views(before).push(added));
                assert(stops_running(added, running(old(self)@)));
                assert(action_views(out@)[before.len() as int] == added);
                assert(stop_listed(action_views(out@), entries[i as int].0@));
                assert forall|j: int|
                    0 <= j < i + 1 && self@.cards.dom().contains(
                        (#[trigger] entries[j]).0@,
                    ) implies stop_listed(action_views(out@), entries[j].0@) by {
                    if j < i {
                        let slot = entries[j].0@;
                        assert(stop_listed(action_views(before), slot));
                        let k = choose|k: int|
                            0 <= k < before.len() && #[trigger] action_views(before)[k]
                                == ActionView::Stop { slot };
                        assert(action_views(out@)[k] == ActionView::Stop { slot });
                    }
                }
            }
        }
        proof {
            assert forall|slot: Seq<char>| running(old(self)@).contains(slot) implies #[trigger] stop_listed(
                action_views(out@),
                slot,
            ) by {
                let k = crate::names::key_at(entries, slot);
                assert(crate::names::has_key(entries, slot));
                assert(entries[k].0@ == slot);
            }
            assert forall|k: int| 0 <= k < action_views(out@).len() implies #[trigger] stops_running(
                action_views(out@)[k],
                running(old(self)@),
            ) by {
                assert(stops_running(out@[k]@, running(old(self)@)));
            }
        }
        self.refcounts = NameMap::new();
        out
    }
}

/// An action stops a running task.
pub open spec fn stops_running(a: ActionView, tasks: Set<Seq<char>>) -> bool {
    a matches ActionView::Stop { slot } && tasks.contains(slot)
}

/// A list of actions stops the task of a slot.
pub open spec fn stop_listed(actions: Seq<ActionView>, slot: Seq<char>) -> bool {
    exists|k: int| 0 <= k < actions.len() && #[trigger] actions[k] == ActionView::Stop { slot }
}

/// The actions stop the given tasks and do nothing else.
pub open spec fn stops_exactly(actions: Seq<ActionView>, tasks: Set<Seq<char>>) -> bool {
    &&& forall|k: int| 0 <= k < actions.len() ==> #[trigger] stops_running(actions[k], tasks)
    &&& forall|slot: Seq<char>| tasks.contains(slot) ==> #[trigger] stop_listed(actions, slot)
}

// ── Card numbers ────────────────────────────────────────────────────────────

/// The slots of one card.
pub open spec fn with_card(cards: Map<Seq<char>, usize>, slots: Seq<Seq<char>>, card: usize) -> Map<
    Seq<char>,
    usize,
>
    decreases slots.len(),
{
    if slots.len() == 0 {
        cards
    } else {
        with_card(cards, slots.drop_last(), card).insert(slots.last(), card)
    }
}

/// The card number of each PCI slot that the first `n` uevent files name; a
/// later card takes the place of an earlier one.
pub open spec fn card_numbers(uevents: Seq<Option<String>>, n: int) -> Map<Seq<char>, usize>
    decreases n,
{
    if n <= 0 {
        Map::empty()
    } else {
        match uevents[n - 1] {
            Some(contents) => with_card(
                card_numbers(uevents, n - 1),
                uevent_slots(contents@),
                (n - 1) as usize,
            ),
            None => card_numbers(uevents, n - 1),
        }
    }
}

/// Builds the card numbers from the uevent files of `card0`, `card1`, and so
/// on; none stands for a file that cannot be read.
pub fn build_slot_map(uevents: &Vec<Option<String>>) -> (r: NameMap<usize>)
    ensures
        r.wf(),
        r@ == card_numbers(uevents@, uevents@.len() as int),
{
    let mut map: NameMap<usize> = NameMap::new();
    for i in 0..uevents.len()
        invariant
            map.wf(),
            map@ == card_numbers(uevents@, i as int),
    {
        if let Some(contents) = &uevents[i] {
            let slots = pci_slots_of(contents.as_str());
            let ghost before = map@;
            let ghost all = texts(slots@);
            assert(all.take(0) =~= Seq::<Seq<char>>::empty());
            for j in 0..slots.len()
                invariant
                    map.wf(),
                    all == texts(slots@),
                    map@ == with_card(before, all.take(j as int), i),
            {
                proof {
                    assert(all.take(j + 1).drop_last() =~= all.take(j as int));
                    assert(all.take(j + 1).last() == slots@[j as int]@);
                }
                map.insert(slots[j].as_str(), i);
            }
            assert(all.take(all.len() as int) =~= all);
        }
    }
    map
}

// ── Laws ────────────────────────────────────────────────────────────────────

/// A reference that is taken and given back leaves everything as it was.
pub proof fn law_acquire_release(v: KeepAliveView, slot: Seq<char>)
    requires
        v.counts.dom().contains(slot) ==> 0 < v.counts[slot] < usize::MAX,
    ensures
        released(acquired(v, slot), slot) == v,
{
    assert(released(acquired(v, slot), slot) =~= v);
}

/// A task is started exactly when its slot begins to be in use, and stopped
/// exactly when nothing is left on it; while two or more instances are on a
/// GPU, one that leaves stops nothing.
pub proof fn law_task_runs_while_in_use(v: KeepAliveView, slot: Seq<char>)
    requires
        v.counts.dom().contains(slot) ==> v.counts[slot] > 0,
    ensures
        acquire_action(v, slot) is Some <==> !running(v).contains(slot) && running(
            acquired(v, slot),
        ).contains(slot),
        release_action(v, slot) is Some <==> running(v).contains(slot) && !running(
            released(v, slot),
        ).contains(slot),
        count_of(v, slot) >= 2 ==> release_action(v, slot) is None && running(
            released(v, slot),
        ) == running(v),
        forall|other: Seq<char>| other != slot ==> (running(v).contains(other) <==> #[trigger] running(
            acquired(v, slot),
        ).contains(other)),
        forall|other: Seq<char>| other != slot ==> (running(v).contains(other) <==> #[trigger] running(
            released(v, slot),
        ).contains(other)),
{
    assert(count_of(v, slot) >= 2 ==> running(released(v, slot)) =~= running(v));
}

/// How often a slot occurs.
pub open spec fn times(slots: Seq<Seq<char>>, slot: Seq<char>) -> nat
    decreases slots.len(),
{
    if slots.len() == 0 {
        0
    } else {
        times(slots.drop_last(), slot) + if slots.last() == slot {
            1nat
        } else {
            0nat
        }
    }
}

/// No slot is kept without a reference to it.
pub open spec fn no_empty_counts(v: KeepAliveView) -> bool {
    forall|slot: Seq<char>| #[trigger] v.counts.dom().contains(slot) ==> v.counts[slot] > 0
}

/// `n` more references to a slot can be counted.
pub open spec fn room_for(v: KeepAliveView, n: nat) -> bool {
    forall|slot: Seq<char>| #[trigger] count_of(v, slot) + n <= usize::MAX
}

proof fn lemma_times_bounded(slots: Seq<Seq<char>>, slot: Seq<char>)
    ensures
        times(slots, slot) <= slots.len(),
    decreases slots.len(),
{
    if slots.len() > 0 {
        lemma_times_bounded(slots.drop_last(), slot);
    }
}

proof fn lemma_acquired_counts(v: KeepAliveView, slots: Seq<Seq<char>>)
    requires
        no_empty_counts(v),
        room_for(v, slots.len()),
    ensures
        no_empty_counts(acquired_all(v, slots)),
        forall|slot: Seq<char>| #[trigger]
            count_of(acquired_all(v, slots), slot) == count_of(v, slot) + times(slots, slot),
        acquired_all(v, slots).cards == v.cards,
        acquired_all(v, slots).cmd == v.cmd,
        acquired_all(v, slots).sleep == v.sleep,
    decreases slots.len(),
{
    if slots.len() > 0 {
        let front = slots.drop_last();
        assert(room_for(v, front.len())) by {
            assert forall|slot: Seq<char>| #[trigger] count_of(v, slot) + front.len()
                <= usize::MAX by {
                assert(count_of(v, slot) + slots.len() <= usize::MAX);
            }
        }
        lemma_acquired_counts(v, front);
        let w = acquired_all(v, front);
        assert forall|slot: Seq<char>| #[trigger]
            count_of(acquired_all(v, slots), slot) == count_of(v, slot) + times(slots, slot) by {
            lemma_times_bounded(front, slot);
            assert(count_of(w, slot) == count_of(v, slot) + times(front, slot));
            assert(count_of(v, slot) + slots.len() <= usize::MAX);
        }
    }
}

proof fn lemma_released_counts(v: KeepAliveView, slots: Seq<Seq<char>>)
    requires
        no_empty_counts(v),
    ensures
        no_empty_counts(released_all(v, slots)),
        forall|slot: Seq<char>| #[trigger]
            count_of(released_all(v, slots), slot) == if count_of(v, slot) >= times(slots, slot) {
                count_of(v, slot) - times(slots, slot)
            } else {
                0
            },
        released_all(v, slots).cards == v.cards,
        released_all(v, slots).cmd == v.cmd,
        released_all(v, slots).sleep == v.sleep,
    decreases slots.len(),
{
    if slots.len() > 0 {
        let front = slots.drop_last();
        lemma_released_counts(v, front);
        let w = released_all(v, front);
        let last = slots.last();
        assert(released_all(v, slots) == released(w, last));
        assert forall|slot: Seq<char>| #[trigger]
            count_of(released_all(v, slots), slot) == if count_of(v, slot) >= times(slots, slot) {
                count_of(v, slot) - times(slots, slot)
            } else {
                0
            } by {
            assert(count_of(w, slot) == if count_of(v, slot) >= times(front, slot) {
                count_of(v, slot) - times(front, slot)
            } else {
                0
            });
            assert(times(slots, slot) == times(front, slot) + if last == slot {
                1nat
            } else {
                0nat
            });
        }
    }
}

/// The references of an instance that comes and goes leave everything as it
/// was, however many devices it spans and whatever else is in use.
pub proof fn law_references_balance(v: KeepAliveView, slots: Seq<Seq<char>>)
    requires
        no_empty_counts(v),
        room_for(v, slots.len()),
    ensures
        released_all(acquired_all(v, slots), slots) == v,
{
    let w = acquired_all(v, slots);
    let back = released_all(w, slots);
    lemma_acquired_counts(v, slots);
    lemma_released_counts(w, slots);
    assert forall|slot: Seq<char>| count_of(back, slot) == count_of(v, slot) by {
        assert(count_of(w, slot) == count_of(v, slot) + times(slots, slot));
    }
    assert forall|slot: Seq<char>| #[trigger]
        back.counts.dom().contains(slot) <==> v.counts.dom().contains(slot) by {
        assert(count_of(back, slot) == count_of(v, slot));
    }
    assert forall|slot: Seq<char>| #[trigger]
        v.counts.dom().contains(slot) implies back.counts[slot] == v.counts[slot] by {
        assert(count_of(back, slot) == count_of(v, slot));
    }
    assert(back =~= v);
}

/// A task that starts is told the card of its slot, what to run there and how
/// long to pause; the number of the card stands for its placeholder.
pub proof fn law_tasks_are_told_their_card(
    v: KeepAliveView,
    slot: Seq<char>,
    before: Seq<char>,
    after: Seq<char>,
)
    requires
        count_of(v, slot) == 0,
        v.cards.dom().contains(slot),
        v.cmd == before + "{index}"@ + after,
        forall|i: int| 0 <= i < before.len() ==> before[i] != '{',
        forall|i: int| 0 <= i < after.len() ==> after[i] != '{',
    ensures
        acquire_action(v, slot) == Some(
            ActionView::Start {
                slot,
                card: v.cards[slot],
                cmd: before + decimal(v.cards[slot] as nat) + after,
                sleep: v.sleep,
            },
        ),
{
    reveal_strlit("{index}");
    lemma_replace_one(before, "{index}"@, after, decimal(v.cards[slot] as nat));
}

/// Each reference counts, and only for its slot; the task of a slot without a
/// card is never started.
pub proof fn law_references_are_counted(v: KeepAliveView, slot: Seq<char>, other: Seq<char>)
    requires
        other != slot,
        count_of(v, slot) < usize::MAX,
    ensures
        acquired(v, slot).counts.dom().contains(slot),
        acquired(v, slot).counts[slot] == count_of(v, slot) + 1,
        count_of(acquired(v, slot), other) == count_of(v, other),
        count_of(v, slot) > 0 ==> count_of(released(v, slot), slot) == count_of(v, slot) - 1,
        count_of(released(v, slot), other) == count_of(v, other),
        !v.cards.dom().contains(slot) ==> acquire_action(v, slot) is None && release_action(v, slot)
            is None,
        v.counts.dom().contains(slot) && v.counts[slot] == 1 && v.cards.dom().contains(slot)
            ==> release_action(v, slot) == Some(ActionView::Stop { slot }),
{
}

/// The slots that a card's uevent file names have the number of that card; a
/// file that cannot be read names none.
pub proof fn law_card_numbers(uevents: Seq<Option<String>>, slot: Seq<char>, i: int)
    requires
        0 <= i < uevents.len() <= usize::MAX,
        forall|j: int|
            #![trigger uevents[j]]
            i < j < uevents.len() ==> (uevents[j] matches Some(c) ==> !uevent_slots(c@).contains(
                slot,
            )),
    ensures
        uevents[i] matches Some(c) ==> uevent_slots(c@).contains(slot) ==> card_numbers(
            uevents,
            uevents.len() as int,
        ).dom().contains(slot) && card_numbers(uevents, uevents.len() as int)[slot] == i,
{
    if let Some(c) = uevents[i] {
        if uevent_slots(c@).contains(slot) {
            lemma_card_number(uevents, slot, i, uevents.len() as int);
        }
    }
}

/// A slot that no file names has no card.
pub proof fn law_cards_are_named(uevents: Seq<Option<String>>, slot: Seq<char>, n: int)
    requires
        0 <= n <= uevents.len(),
        forall|j: int|
            #![trigger uevents[j]]
            0 <= j < n ==> (uevents[j] matches Some(c) ==> !uevent_slots(c@).contains(slot)),
    ensures
        !card_numbers(uevents, n).dom().contains(slot),
    decreases n,
{
    if n > 0 {
        law_cards_are_named(uevents, slot, n - 1);
        if let Some(c) = uevents[n - 1] {
            lemma_with_card(
                card_numbers(uevents, n - 1),
                uevent_slots(c@),
                (n - 1) as usize,
                slot,
            );
        }
    }
}

proof fn lemma_card_number(uevents: Seq<Option<String>>, slot: Seq<char>, i: int, n: int)
    requires
        0 <= i < n <= uevents.len() <= usize::MAX,
        uevents[i] matches Some(c) && uevent_slots(c@).contains(slot),
        forall|j: int|
            #![trigger uevents[j]]
            i < j < n ==> (uevents[j] matches Some(c) ==> !uevent_slots(c@).contains(slot)),
    ensures
        card_numbers(uevents, n).dom().contains(slot),
        card_numbers(uevents, n)[slot] == i,
    decreases n,
{
    if n - 1 > i {
        lemma_card_number(uevents, slot, i, n - 1);
    }
    if let Some(c) = uevents[n - 1] {
        lemma_with_card(card_numbers(uevents, n - 1), uevent_slots(c@), (n - 1) as usize, slot);
    }
}

proof fn lemma_with_card(
    cards: Map<Seq<char>, usize>,
    slots: Seq<Seq<char>>,
    card: usize,
    slot: Seq<char>,
)
    ensures
        slots.contains(slot) ==> with_card(cards, slots, card).dom().contains(slot) && with_card(
            cards,
            slots,
            card,
        )[slot] == card,
        !slots.contains(slot) ==> (with_card(cards, slots, card).dom().contains(slot)
            <==> cards.dom().contains(slot)) && with_card(cards, slots, card)[slot] == cards[slot],
    decreases slots.len(),
{
    if slots.len() > 0 {
        let front = slots.drop_last();
        lemma_with_card(cards, front, card, slot);
        if front.contains(slot) {
            let k = front.index_of(slot);
            assert(slots[k] == slot);
        }
        if slots.last() == slot {
            assert(slots[slots.len() - 1] == slot);
        }
        if slots.contains(slot) && slots.last() != slot {
            let k = slots.index_of(slot);
            assert(front[k] == slot);
        }
    }
}

/// References to several slots, and what they bring about, come one after the
/// other; so do those that are given back.
pub proof fn law_references_in_order(v: KeepAliveView, slots: Seq<Seq<char>>, slot: Seq<char>)
    ensures
        acquired_all(v, Seq::empty()) == v,
        acquired_all(v, slots.push(slot)) == acquired(acquired_all(v, slots), slot),
        acquire_actions(v, Seq::empty()) == Seq::<ActionView>::empty(),
        acquire_actions(v, slots.push(slot)) == match acquire_action(
            acquired_all(v, slots),
            slot,
        ) {
            Some(a) => acquire_actions(v, slots).push(a),
            None => acquire_actions(v, slots),
        },
        released_all(v, Seq::empty()) == v,
        released_all(v, slots.push(slot)) == released(released_all(v, slots), slot),
        release_actions(v, Seq::empty()) == Seq::<ActionView>::empty(),
        release_actions(v, slots.push(slot)) == match release_action(
            released_all(v, slots),
            slot,
        ) {
            Some(a) => release_actions(v, slots).push(a),
            None => release_actions(v, slots),
        },
{
    assert(slots.push(slot).drop_last() =~= slots);
}

/// When keep-alive ends, each task that runs is stopped, and nothing else is
/// done.
pub proof fn law_what_is_stopped(
    actions: Seq<ActionView>,
    v: KeepAliveView,
    slot: Seq<char>,
    k: int,
)
    requires
        stops_exactly(actions, running(v)),
        0 <= k < actions.len(),
    ensures
        actions[k] matches ActionView::Stop { slot: s } && v.counts.dom().contains(s)
            && v.cards.dom().contains(s),
        v.counts.dom().contains(slot) && v.cards.dom().contains(slot) ==> actions.contains(
            ActionView::Stop { slot },
        ),
{
    assert(stops_running(actions[k], running(v)));
    if v.counts.dom().contains(slot) && v.cards.dom().contains(slot) {
        assert(stop_listed(actions, slot));
        let i = choose|i: int|
            0 <= i < actions.len() && #[trigger] actions[i] == ActionView::Stop { slot };
        assert(actions.contains(actions[i]));
    }
}

} // verus!

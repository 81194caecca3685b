//! What the hotkey service hands to its user, and how it turns the hook's
//! reports into those events.

use vstd::prelude::*;
use crate::kee_keys::{TKeePair, pairs_view};
use crate::kee_manager::{HotkeyEvent, Modifier, VK_LWIN, VK_RWIN, is_key_down, is_key_up, modifier_transition, next_key_states};

verus! {

/// An event delivered to the user's handler: a configured chord fired
/// (its key and its function name), or the service is asked to stop.
#[derive(Debug)]
pub enum Event {
    Keys(String, String),
    Shutdown,
}

impl Clone for Event {
    fn clone(&self) -> (res: Self)
        ensures
            res == *self,
    {
        match self {
            Event::Keys(k, f) => Event::Keys(k.clone(), f.clone()),
            Event::Shutdown => Event::Shutdown,
        }
    }
}

/// The abstract value of an event.
pub enum EventView {
    Keys(Seq<char>, Seq<char>),
    Shutdown,
}

impl View for Event {
    type V = EventView;

    open spec fn view(&self) -> EventView {
        match self {
            Event::Keys(k, f) => EventView::Keys(k@, f@),
            Event::Shutdown => EventView::Shutdown,
        }
    }
}

impl Event {
    /// Whether this event ends the delivery loop.
    pub fn is_shutdown(&self) -> (res: bool)
        ensures
            res == (self is Shutdown),
    {
        match self {
            Event::Shutdown => true,
            _ => false,
        }
    }
}

/// What the service does with one report of the hook.
#[derive(Debug)]
pub enum KeeAction {
    /// Deliver this event to the handler.
    Emit(Event),
    /// Start the tone that accompanies a held Windows key.
    StartBeep,
    /// Stop that tone.
    StopBeep,
    /// Do nothing.
    Ignore,
}

/// The abstract value of an action.
pub enum KeeActionView {
    Emit(EventView),
    StartBeep,
    StopBeep,
    Ignore,
}

impl View for KeeAction {
    type V = KeeActionView;

    open spec fn view(&self) -> KeeActionView {
        match self {
            KeeAction::Emit(e) => KeeActionView::Emit(e@),
            KeeAction::StartBeep => KeeActionView::StartBeep,
            KeeAction::StopBeep => KeeActionView::StopBeep,
            KeeAction::Ignore => KeeActionView::Ignore,
        }
    }
}

/// Whether `i` is the first pair whose key is `k`.
pub open spec fn is_first_pair_with_key(pairs: Seq<(Seq<char>, Seq<char>)>, k: Seq<char>, i: int) -> bool {
    &&& 0 <= i < pairs.len()
    &&& pairs[i].0 == k
    &&& forall|j: int| 0 <= j < i ==> #[trigger] pairs[j].0 != k
}

/// The first pair whose key is `k`, if any.
pub open spec fn pair_for_key(pairs: Seq<(Seq<char>, Seq<char>)>, k: Seq<char>) -> Option<(Seq<char>, Seq<char>)> {
    if exists|i: int| is_first_pair_with_key(pairs, k, i) {
        Some(pairs[choose|i: int| is_first_pair_with_key(pairs, k, i)])
    } else {
        None
    }
}

/// What the service does with a report of the hook, given the configured
/// pairs: a fired chord is delivered as its first configured pair (and
/// ignored when no pair has that key); the Windows key going down or up
/// starts or stops the tone; other modifiers are ignored.
pub open spec fn routed_action(pairs: Seq<(Seq<char>, Seq<char>)>, event: HotkeyEvent) -> KeeActionView {
    match event {
        HotkeyEvent::OnKey(k) => match pair_for_key(pairs, k@) {
            Some(p) => KeeActionView::Emit(EventView::Keys(p.0, p.1)),
            None => KeeActionView::Ignore,
        },
        HotkeyEvent::OnModifier(m, down) => if m == Modifier::Win {
            if down {
                KeeActionView::StartBeep
            } else {
                KeeActionView::StopBeep
            }
        } else {
            KeeActionView::Ignore
        },
    }
}

/// Turns a report of the hook into what the service does with it.
pub fn route_hotkey_event(pairs: &Vec<TKeePair>, event: &HotkeyEvent) -> (res: KeeAction)
    ensures
        res@ == routed_action(pairs_view(pairs@), *event),
        *event matches HotkeyEvent::OnModifier(m, down) ==> res@ == (if m != Modifier::Win {
            KeeActionView::Ignore
        } else if down {
            KeeActionView::StartBeep
        } else {
            KeeActionView::StopBeep
        }),
        *event matches HotkeyEvent::OnKey(k) ==> (res@ matches KeeActionView::Emit(EventView::Keys(key, func)) ==> key
            == k@ && exists|i: int| 0 <= i < pairs@.len() && pairs@[i].key@ == k@ && pairs@[i].func@ == func),
        *event matches HotkeyEvent::OnKey(k) ==> ((res@ is Emit) <==> exists|i: int|
            0 <= i < pairs@.len() && #[trigger] pairs@[i].key@ == k@),
{
    match event {
        HotkeyEvent::OnKey(k) => {
            let ghost pv = pairs_view(pairs@);
            let n = pairs.len();
            let mut i: usize = 0;
            while i < n
                invariant
                    n == pairs.len(),
                    i <= n,
                    pv == pairs_view(pairs@),
                    *event == HotkeyEvent::OnKey(*k),
                    forall|j: int| 0 <= j < i ==> #[trigger] pv[j].0 != k@,
                decreases n - i,
            {
                let p = &pairs[i];
                proof {
                    assert(pv[i as int] == p@);
                }
                if p.key == *k {
                    proof {
                        assert(is_first_pair_with_key(pv, k@, i as int));
                        lemma_fired_chord_delivers_configured_function(pv, *k, i as int);
                    }
                    let key = p.key.clone();
                    let func = p.func.clone();
                    return KeeAction::Emit(Event::Keys(key, func));
                }
                i += 1;
            }
            proof {
                assert forall|j: int| 0 <= j < pairs@.len() implies #[trigger] pairs@[j].key@ != k@ by {
                    assert(pv[j].0 == pairs@[j].key@);
                }
                assert forall|c: int| !is_first_pair_with_key(pv, k@, c) by {
                    if is_first_pair_with_key(pv, k@, c) {
                        assert(pv[c].0 != k@);
                    }
                }
            }
            KeeAction::Ignore
        },
        HotkeyEvent::OnModifier(m, down) => {
            if *m == Modifier::Win {
                if *down {
                    KeeAction::StartBeep
                } else {
                    KeeAction::StopBeep
                }
            } else {
                KeeAction::Ignore
            }
        },
    }
}

/// The keys of the configured pairs, in order: the chords to register.
pub fn pair_keys(pairs: &Vec<TKeePair>) -> (res: Vec<String>)
    ensures
        res@.map_values(|s: String| s@) == pairs_view(pairs@).map_values(|p: (Seq<char>, Seq<char>)| p.0),
{
    let mut res: Vec<String> = Vec::new();
    let n = pairs.len();
    let mut i: usize = 0;
    while i < n
        invariant
            n == pairs.len(),
            i <= n,
            res@.len() == i,
            forall|j: int| 0 <= j < i ==> #[trigger] res@[j]@ == pairs@[j].key@,
        decreases n - i,
    {
        res.push(pairs[i].key.clone());
        i += 1;
    }
    proof {
        assert(res@.map_values(|s: String| s@) =~= pairs_view(pairs@).map_values(
            |p: (Seq<char>, Seq<char>)| p.0,
        ));
    }
    res
}


/// A fired chord is delivered with its own key and the function of the
/// first configured pair for that key.
pub proof fn lemma_fired_chord_delivers_configured_function(pairs: Seq<(Seq<char>, Seq<char>)>, name: String, i: int)
    requires
        is_first_pair_with_key(pairs, name@, i),
    ensures
        routed_action(pairs, HotkeyEvent::OnKey(name)) == KeeActionView::Emit(EventView::Keys(name@, pairs[i].1)),
{
    let c = choose|c: int| is_first_pair_with_key(pairs, name@, c);
    if c < i {
        assert(pairs[c].0 != name@);
    } else if i < c {
        assert(pairs[i].0 != name@);
    }
}

/// A chord whose key no configured pair has is not delivered.
pub proof fn lemma_unconfigured_chord_ignored(pairs: Seq<(Seq<char>, Seq<char>)>, name: String)
    requires
        forall|j: int| 0 <= j < pairs.len() ==> #[trigger] pairs[j].0 != name@,
    ensures
        routed_action(pairs, HotkeyEvent::OnKey(name)) == KeeActionView::Ignore,
{
    assert forall|c: int| !is_first_pair_with_key(pairs, name@, c) by {
        if is_first_pair_with_key(pairs, name@, c) {
            assert(pairs[c].0 != name@);
        }
    }
}


/// Pressing a Windows key that is up starts the tone, and releasing it
/// stops the tone: the hook's modifier reports, routed, give exactly that.
pub proof fn lemma_windows_key_drives_tone(pairs: Seq<(Seq<char>, Seq<char>)>, ks: Seq<bool>, down: u32, up: u32, vk: u16)
    requires
        ks.len() == 256,
        vk == VK_LWIN || vk == VK_RWIN,
        !ks[vk as int],
        is_key_down(down),
        is_key_up(up),
    ensures
        modifier_transition(ks, down, vk) == Some((Modifier::Win, true)),
        routed_action(pairs, HotkeyEvent::OnModifier(Modifier::Win, true)) == KeeActionView::StartBeep,
        modifier_transition(next_key_states(ks, down, vk), up, vk) == Some((Modifier::Win, false)),
        routed_action(pairs, HotkeyEvent::OnModifier(Modifier::Win, false)) == KeeActionView::StopBeep,
{
}

/// Only the Windows key drives the tone: Ctrl, Shift and Alt, going down
/// or up, are ignored, and the Windows key going down starts the tone and
/// going up stops it.
pub proof fn lemma_only_windows_key_drives_tone(pairs: Seq<(Seq<char>, Seq<char>)>, m: Modifier, down: bool)
    ensures
        m != Modifier::Win ==> routed_action(pairs, HotkeyEvent::OnModifier(m, down)) == KeeActionView::Ignore,
        m == Modifier::Win && down ==> routed_action(pairs, HotkeyEvent::OnModifier(m, down)) == KeeActionView::StartBeep,
        m == Modifier::Win && !down ==> routed_action(pairs, HotkeyEvent::OnModifier(m, down)) == KeeActionView::StopBeep,
        routed_action(pairs, HotkeyEvent::OnModifier(m, down)) != KeeActionView::Ignore ==> m == Modifier::Win,
{
}

/// A delivered chord is delivered with its own key and with the function of
/// a configured pair for that key, and a chord that some pair configures is
/// always delivered.
pub proof fn lemma_delivered_chord_is_configured(pairs: Seq<(Seq<char>, Seq<char>)>, name: String)
    ensures
        routed_action(pairs, HotkeyEvent::OnKey(name)) matches KeeActionView::Emit(EventView::Keys(key, func)) ==> key
            == name@ && exists|i: int| 0 <= i < pairs.len() && pairs[i] == (name@, func),
        (exists|i: int| 0 <= i < pairs.len() && #[trigger] pairs[i].0 == name@) ==> routed_action(
            pairs,
            HotkeyEvent::OnKey(name),
        ) is Emit,
{
    if exists|i: int| is_first_pair_with_key(pairs, name@, i) {
        let c = choose|i: int| is_first_pair_with_key(pairs, name@, i);
        assert(pairs[c] == (name@, pairs[c].1));
    }
    if exists|i: int| 0 <= i < pairs.len() && #[trigger] pairs[i].0 == name@ {
        let w = choose|i: int| 0 <= i < pairs.len() && #[trigger] pairs[i].0 == name@;
        lemma_some_first_pair(pairs, name@, w);
    }
}

/// When some pair has the key, there is a first such pair.
proof fn lemma_some_first_pair(pairs: Seq<(Seq<char>, Seq<char>)>, k: Seq<char>, w: int)
    requires
        0 <= w < pairs.len(),
        pairs[w].0 == k,
    ensures
        exists|i: int| is_first_pair_with_key(pairs, k, i),
    decreases w,
{
    if forall|j: int| 0 <= j < w ==> #[trigger] pairs[j].0 != k {
        assert(is_first_pair_with_key(pairs, k, w));
    } else {
        let j = choose|j: int| 0 <= j < w && #[trigger] pairs[j].0 == k;
        lemma_some_first_pair(pairs, k, j);
    }
}

} // verus!

//! The state behind the low-level keyboard hook: which keys are held down
//! and which chords are registered, and what the hook decides on each key
//! message it receives.

use vstd::prelude::*;

verus! {

/// Message sent to the hook when a key is pressed.
pub const WM_KEYDOWN: u32 = 0x0100;
/// Message sent to the hook when a key is released.
pub const WM_KEYUP: u32 = 0x0101;
/// Message sent to the hook when a key is pressed while Alt is held.
pub const WM_SYSKEYDOWN: u32 = 0x0104;
/// Message sent to the hook when a key is released while Alt is held.
pub const WM_SYSKEYUP: u32 = 0x0105;

/// Virtual key code of the left Shift key.
pub const VK_LSHIFT: u16 = 0xA0;
/// Virtual key code of the right Shift key.
pub const VK_RSHIFT: u16 = 0xA1;
/// Virtual key code of the left Ctrl key.
pub const VK_LCONTROL: u16 = 0xA2;
/// Virtual key code of the right Ctrl key.
pub const VK_RCONTROL: u16 = 0xA3;
/// Virtual key code of the Alt key.
pub const VK_MENU: u16 = 0x12;
/// Virtual key code of the left Windows key.
pub const VK_LWIN: u16 = 0x5B;
/// Virtual key code of the right Windows key.
pub const VK_RWIN: u16 = 0x5C;
/// Virtual key code of Tab.
pub const VK_TAB: u16 = 0x09;
/// Virtual key code of Escape.
pub const VK_ESCAPE: u16 = 0x1B;

/// Modifier flag of a chord that needs Alt.
pub const MOD_ALT: u32 = 0x0001;
/// Modifier flag of a chord that needs Ctrl.
pub const MOD_CONTROL: u32 = 0x0002;
/// Modifier flag of a chord that needs Shift.
pub const MOD_SHIFT: u32 = 0x0004;
/// Modifier flag of a chord that needs the Windows key.
pub const MOD_WIN: u32 = 0x0008;

/// One of the four modifier keys the hook tracks.
#[derive(Debug, Clone, Copy, PartialEq, Eq, Structural)]
pub enum Modifier {
    Ctrl,
    Shift,
    Alt,
    Win,
}

/// What the hook reports to the callbacks: a registered chord was pressed
/// (by its name), or a modifier went down (`true`) or up (`false`).
#[derive(Debug, PartialEq, Eq)]
pub enum HotkeyEvent {
    OnKey(String),
    OnModifier(Modifier, bool),
}

impl Clone for HotkeyEvent {
    fn clone(&self) -> (res: Self)
        ensures
            res == *self,
    {
        match self {
            HotkeyEvent::OnKey(k) => HotkeyEvent::OnKey(k.clone()),
            HotkeyEvent::OnModifier(m, down) => HotkeyEvent::OnModifier(*m, *down),
        }
    }
}

/// Whether `msg` is a key-press message.
pub open spec fn is_key_down(msg: u32) -> bool {
    msg == WM_KEYDOWN || msg == WM_SYSKEYDOWN
}

/// Whether `msg` is a key-release message.
pub open spec fn is_key_up(msg: u32) -> bool {
    msg == WM_KEYUP || msg == WM_SYSKEYUP
}

/// The modifier that the key `vk` is, if it is one.
pub open spec fn modifier_of(vk: u16) -> Option<Modifier> {
    if vk == VK_LCONTROL || vk == VK_RCONTROL {
        Some(Modifier::Ctrl)
    } else if vk == VK_LSHIFT || vk == VK_RSHIFT {
        Some(Modifier::Shift)
    } else if vk == VK_MENU {
        Some(Modifier::Alt)
    } else if vk == VK_LWIN || vk == VK_RWIN {
        Some(Modifier::Win)
    } else {
        None
    }
}

/// The modifier that the key `vk` is, if it is one.
pub fn modifier_for_key(vk: u16) -> (res: Option<Modifier>)
    ensures
        res == modifier_of(vk),
{
    if vk == VK_LCONTROL || vk == VK_RCONTROL {
        Some(Modifier::Ctrl)
    } else if vk == VK_LSHIFT || vk == VK_RSHIFT {
        Some(Modifier::Shift)
    } else if vk == VK_MENU {
        Some(Modifier::Alt)
    } else if vk == VK_LWIN || vk == VK_RWIN {
        Some(Modifier::Win)
    } else {
        None
    }
}

/// Which of the four modifiers are held, or are required by a chord.
#[derive(Debug, Clone, Copy, PartialEq, Eq, Structural)]
pub struct ModifierState {
    pub ctrl: bool,
    pub shift: bool,
    pub alt: bool,
    pub meta: bool,
}

/// The modifiers held according to the table of pressed keys.
pub open spec fn pressed_modifiers(ks: Seq<bool>) -> ModifierState {
    ModifierState {
        ctrl: ks[VK_LCONTROL as int] || ks[VK_RCONTROL as int],
        shift: ks[VK_LSHIFT as int] || ks[VK_RSHIFT as int],
        alt: ks[VK_MENU as int],
        meta: ks[VK_LWIN as int] || ks[VK_RWIN as int],
    }
}

/// The modifiers that the flags of a chord require.
pub open spec fn flags_modifiers(flags: u32) -> ModifierState {
    ModifierState {
        ctrl: flags & MOD_CONTROL != 0,
        shift: flags & MOD_SHIFT != 0,
        alt: flags & MOD_ALT != 0,
        meta: flags & MOD_WIN != 0,
    }
}

/// The modifiers that the flags of a chord require.
pub fn modifiers_of_flags(flags: u32) -> (res: ModifierState)
    ensures
        res == flags_modifiers(flags),
{
    ModifierState {
        ctrl: flags & MOD_CONTROL != 0,
        shift: flags & MOD_SHIFT != 0,
        alt: flags & MOD_ALT != 0,
        meta: flags & MOD_WIN != 0,
    }
}


/// A chord as the hook matches it: a virtual key code, the modifier flags
/// it needs, and the text it was registered under.
#[derive(Debug)]
pub struct HotkeyBinding {
    pub vk: u16,
    pub flags: u32,
    pub name: String,
}

impl View for HotkeyBinding {
    type V = (u16, u32, Seq<char>);

    open spec fn view(&self) -> (u16, u32, Seq<char>) {
        (self.vk, self.flags, self.name@)
    }
}

impl Clone for HotkeyBinding {
    fn clone(&self) -> (res: Self)
        ensures
            res == *self,
    {
        HotkeyBinding { vk: self.vk, flags: self.flags, name: self.name.clone() }
    }
}

impl HotkeyBinding {
    /// A binding of the key `vk` with the modifier flags `flags`, known by `name`.
    pub fn new(vk: u16, flags: u32, name: String) -> (res: Self)
        ensures
            res.vk == vk,
            res.flags == flags,
            res.name == name,
    {
        HotkeyBinding { vk, flags, name }
    }
}

/// Whether `i` is the first chord that did not parse.
pub open spec fn is_first_failure<E>(parsed: Seq<Result<(u16, u32), E>>, i: int) -> bool {
    &&& 0 <= i < parsed.len()
    &&& parsed[i] is Err
    &&& forall|j: int| 0 <= j < i ==> #[trigger] parsed[j] is Ok
}

/// The bindings of the chords `names`, from what parsing each gave (its key
/// code and modifier flags): all of them, in order, when every chord parsed;
/// otherwise the error of the first chord that did not, and no binding.
pub fn collect_bindings<E>(names: Vec<String>, parsed: Vec<Result<(u16, u32), E>>) -> (res: Result<Vec<HotkeyBinding>, E>)
    requires
        names.len() == parsed.len(),
    ensures
        res is Ok <==> (forall|i: int| 0 <= i < parsed@.len() ==> #[trigger] parsed@[i] is Ok),
        res matches Ok(bs) ==> bindings_view(bs@) == Seq::new(
            parsed@.len(),
            |i: int| (parsed@[i]->Ok_0.0, parsed@[i]->Ok_0.1, names@[i]@),
        ),
        res matches Err(e) ==> exists|i: int| is_first_failure(parsed@, i) && parsed@[i] == Err::<(u16, u32), E>(e),
{
    let ghost all = parsed@;
    let mut pending = parsed;
    let mut bindings: Vec<HotkeyBinding> = Vec::new();
    let n = pending.len();
    let mut i: usize = 0;
    while i < n
        invariant
            n == pending.len(),
            n == names.len(),
            pending@ == all,
            parsed@ == all,
            i <= n,
            bindings@.len() == i,
            forall|j: int| 0 <= j < i ==> #[trigger] all[j] is Ok,
            forall|j: int| 0 <= j < i ==> #[trigger] bindings@[j]@ == (all[j]->Ok_0.0, all[j]->Ok_0.1, names@[j]@),
        decreases n - i,
    {
        let ok = match &pending[i] {
            Ok((vk, flags)) => {
                bindings.push(HotkeyBinding { vk: *vk, flags: *flags, name: names[i].clone() });
                true
            },
            Err(_) => false,
        };
        proof {
            assert(ok == (all[i as int] is Ok));
        }
        if !ok {
            proof {
                assert(is_first_failure(all, i as int));
            }
            let failed = pending.remove(i);
            match failed {
                Err(e) => {
                    proof {
                        assert(all[i as int] == Err::<(u16, u32), E>(e));
                    }
                    return Err(e);
                },
                Ok(_) => {
                    proof {
                        assert(false);
                    }
                    return Ok(bindings);
                },
            }
        }
        i += 1;
    }
    proof {
        assert(bindings_view(bindings@) =~= Seq::new(
            all.len(),
            |i: int| (all[i]->Ok_0.0, all[i]->Ok_0.1, names@[i]@),
        ));
    }
    Ok(bindings)
}

/// The views of a sequence of bindings.
pub open spec fn bindings_view(bs: Seq<HotkeyBinding>) -> Seq<(u16, u32, Seq<char>)> {
    bs.map_values(|b: HotkeyBinding| b@)
}

/// Whether `i` is the first position of the registry that holds the key `(vk, flags)`.
pub open spec fn is_first_key_index(bs: Seq<(u16, u32, Seq<char>)>, vk: u16, flags: u32, i: int) -> bool {
    &&& 0 <= i < bs.len()
    &&& bs[i].0 == vk && bs[i].1 == flags
    &&& forall|j: int| 0 <= j < i ==> !(#[trigger] bs[j].0 == vk && bs[j].1 == flags)
}

/// Whether the registry holds the key `(vk, flags)`.
pub open spec fn holds_key(bs: Seq<(u16, u32, Seq<char>)>, vk: u16, flags: u32) -> bool {
    exists|i: int| 0 <= i < bs.len() && #[trigger] bs[i].0 == vk && bs[i].1 == flags
}

/// The registry after registering `b`: the entry with the same key and
/// flags is replaced where it stands, or else `b` is appended.
pub open spec fn insert_binding(bs: Seq<(u16, u32, Seq<char>)>, b: (u16, u32, Seq<char>)) -> Seq<(u16, u32, Seq<char>)> {
    if holds_key(bs, b.0, b.1) {
        bs.update(choose|i: int| is_first_key_index(bs, b.0, b.1, i), b)
    } else {
        bs.push(b)
    }
}

/// The registry after registering each of `new` in turn.
pub open spec fn insert_all(bs: Seq<(u16, u32, Seq<char>)>, new: Seq<(u16, u32, Seq<char>)>) -> Seq<(u16, u32, Seq<char>)>
    decreases new.len(),
{
    if new.len() == 0 {
        bs
    } else {
        insert_binding(insert_all(bs, new.drop_last()), new.last())
    }
}

/// No key and flags occur twice in the registry.
pub open spec fn keys_unique(bs: Seq<(u16, u32, Seq<char>)>) -> bool {
    forall|i: int, j: int|
        0 <= i < j < bs.len() ==> !(#[trigger] bs[i].0 == #[trigger] bs[j].0 && bs[i].1 == bs[j].1)
}

/// The registry as a map from key and flags to the registered name.
pub open spec fn bindings_map(bs: Seq<(u16, u32, Seq<char>)>) -> Map<(u16, u32), Seq<char>> {
    Map::new(
        |k: (u16, u32)| holds_key(bs, k.0, k.1),
        |k: (u16, u32)| bs[choose|i: int| is_first_key_index(bs, k.0, k.1, i)].2,
    )
}

/// Whether the binding `b` fires when `vk` goes down with the modifiers `mods` held.
pub open spec fn binding_matches(b: (u16, u32, Seq<char>), vk: u16, mods: ModifierState) -> bool {
    b.0 == vk && flags_modifiers(b.1) == mods
}

/// Whether `i` is the first position of the registry whose binding fires.
pub open spec fn is_first_match(bs: Seq<(u16, u32, Seq<char>)>, vk: u16, mods: ModifierState, i: int) -> bool {
    &&& 0 <= i < bs.len()
    &&& binding_matches(bs[i], vk, mods)
    &&& forall|j: int| 0 <= j < i ==> !binding_matches(#[trigger] bs[j], vk, mods)
}

/// The first registered binding that fires when `vk` goes down with `mods` held.
pub open spec fn matching_binding(bs: Seq<(u16, u32, Seq<char>)>, vk: u16, mods: ModifierState) -> Option<(u16, u32, Seq<char>)> {
    if exists|i: int| is_first_match(bs, vk, mods, i) {
        Some(bs[choose|i: int| is_first_match(bs, vk, mods, i)])
    } else {
        None
    }
}

/// The table of pressed keys after the message `msg` about the key `vk`.
pub open spec fn next_key_states(ks: Seq<bool>, msg: u32, vk: u16) -> Seq<bool> {
    if is_key_down(msg) {
        ks.update(vk as int, true)
    } else if is_key_up(msg) {
        ks.update(vk as int, false)
    } else {
        ks
    }
}

/// The modifier event that the message reports: a modifier that goes down
/// and was not held before, or a modifier that goes up.
pub open spec fn modifier_transition(ks: Seq<bool>, msg: u32, vk: u16) -> Option<(Modifier, bool)> {
    match modifier_of(vk) {
        Some(m) => if is_key_down(msg) && !ks[vk as int] {
            Some((m, true))
        } else if is_key_up(msg) {
            Some((m, false))
        } else {
            None
        },
        None => None,
    }
}

/// Keys whose chords are reported but never swallowed: the Windows keys,
/// Tab, and Escape while Alt is held.
pub open spec fn is_system_key(vk: u16, alt_pressed: bool) -> bool {
    vk == VK_LWIN || vk == VK_RWIN || vk == VK_TAB || (vk == VK_ESCAPE && alt_pressed)
}

/// The abstract state of the hook: the table of pressed keys (one entry per
/// virtual key code) and the registry of bindings, in registration order.
pub struct HotkeyStateView {
    pub key_states: Seq<bool>,
    pub bindings: Seq<(u16, u32, Seq<char>)>,
}

/// The abstract decision of the hook on one message.
pub struct HookDecisionView {
    pub modifier_event: Option<(Modifier, bool)>,
    pub matched: Option<(u16, u32, Seq<char>)>,
    pub block: bool,
}

/// The state of the hook after the message `msg` about the key `vk`.
pub open spec fn hook_next(pre: HotkeyStateView, msg: u32, vk: u16) -> HotkeyStateView {
    HotkeyStateView { key_states: next_key_states(pre.key_states, msg, vk), bindings: pre.bindings }
}

/// What the hook decides on the message `msg` about the key `vk`: the
/// modifier event to report, the chord that fired (only on a key press,
/// with the modifiers held after the press), and whether the key is
/// swallowed (a chord fired on a key that is not a system key).
pub open spec fn hook_decision(pre: HotkeyStateView, msg: u32, vk: u16) -> HookDecisionView {
    let ks = next_key_states(pre.key_states, msg, vk);
    let matched = if is_key_down(msg) {
        matching_binding(pre.bindings, vk, pressed_modifiers(ks))
    } else {
        None
    };
    HookDecisionView {
        modifier_event: modifier_transition(pre.key_states, msg, vk),
        matched,
        block: matched is Some && !is_system_key(vk, pressed_modifiers(ks).alt),
    }
}

/// What the hook does with one key message.
#[derive(Debug)]
pub struct HookDecision {
    /// The modifier event to report, if any.
    pub modifier_event: Option<(Modifier, bool)>,
    /// The registered chord that fired, if any.
    pub matched: Option<HotkeyBinding>,
    /// Whether the key message is swallowed instead of passed on.
    pub block: bool,
}

impl View for HookDecision {
    type V = HookDecisionView;

    open spec fn view(&self) -> HookDecisionView {
        HookDecisionView {
            modifier_event: self.modifier_event,
            matched: match self.matched {
                Some(b) => Some(b@),
                None => None,
            },
            block: self.block,
        }
    }
}

/// The keys held down and the chords registered, shared by the hook and
/// the registration calls.
///
/// The chords are kept in registration order, each key and flags once. On
/// a key press the hook scans them for one whose flags match the held
/// modifiers (flags beyond the four modifier bits can make several match),
/// so a scan order is needed; registration order makes the chord that
/// fires a fixed function of what was registered, where a hashed map would
/// leave it to the order of its per-process hashing.
pub struct HotkeyState {
    key_states: [bool; 256],
    hotkey_names: Vec<HotkeyBinding>,
}

impl HotkeyState {
    /// No key and flags occur twice in the registry.
    #[verifier::type_invariant]
    spec fn registry_keys_unique(self) -> bool {
        keys_unique(bindings_view(self.hotkey_names@))
    }
}

impl View for HotkeyState {
    type V = HotkeyStateView;

    closed spec fn view(&self) -> HotkeyStateView {
        HotkeyStateView { key_states: self.key_states@, bindings: bindings_view(self.hotkey_names@) }
    }
}


/// The view of an optional binding.
pub open spec fn binding_opt_view(b: Option<HotkeyBinding>) -> Option<(u16, u32, Seq<char>)> {
    match b {
        Some(b) => Some(b@),
        None => None,
    }
}

/// At most one position is the first to hold a key.
proof fn lemma_first_key_index_unique(bs: Seq<(u16, u32, Seq<char>)>, vk: u16, flags: u32, a: int, b: int)
    requires
        is_first_key_index(bs, vk, flags, a),
        is_first_key_index(bs, vk, flags, b),
    ensures
        a == b,
{
    if a < b {
        assert(bs[a].0 == vk && bs[a].1 == flags);
    } else if b < a {
        assert(bs[b].0 == vk && bs[b].1 == flags);
    }
}

/// At most one position is the first whose binding fires.
proof fn lemma_first_match_unique(bs: Seq<(u16, u32, Seq<char>)>, vk: u16, mods: ModifierState, a: int, b: int)
    requires
        is_first_match(bs, vk, mods, a),
        is_first_match(bs, vk, mods, b),
    ensures
        a == b,
{
    if a < b {
        assert(binding_matches(bs[a], vk, mods));
    } else if b < a {
        assert(binding_matches(bs[b], vk, mods));
    }
}

impl HotkeyState {
    /// No key held and no chord registered.
    pub fn new() -> (res: Self)
        ensures
            res@.key_states == Seq::new(256, |i: int| false),
            res@.bindings == Seq::<(u16, u32, Seq<char>)>::empty(),
            keys_unique(res@.bindings),
    {
        let res = HotkeyState { key_states: [false; 256], hotkey_names: Vec::new() };
        proof {
            assert(res@.key_states =~= Seq::new(256, |i: int| false));
            assert(res@.bindings =~= Seq::<(u16, u32, Seq<char>)>::empty());
        }
        res
    }

    /// Registers one chord; a chord with the same key and flags is replaced.
    pub fn register(&mut self, binding: HotkeyBinding)
        ensures
            final(self)@.bindings == insert_binding(old(self)@.bindings, binding@),
            final(self)@.key_states == old(self)@.key_states,
            keys_unique(final(self)@.bindings),
            bindings_map(final(self)@.bindings) == bindings_map(old(self)@.bindings).insert(
                (binding.vk, binding.flags),
                binding.name@,
            ),
    {
        proof {
            use_type_invariant(&*self);
            lemma_register_is_map_insert(old(self)@.bindings, binding@);
        }
        let ghost bs = old(self)@.bindings;
        let n = self.hotkey_names.len();
        let mut i: usize = 0;
        while i < n
            invariant
                n == self.hotkey_names.len(),
                i <= n,
                self@ == old(self)@,
                bs == self@.bindings,
                keys_unique(insert_binding(bs, binding@)),
                bindings_map(insert_binding(bs, binding@)) == bindings_map(bs).insert(
                    (binding.vk, binding.flags),
                    binding.name@,
                ),
                forall|j: int| 0 <= j < i ==> !(#[trigger] bs[j].0 == binding.vk && bs[j].1 == binding.flags),
            decreases n - i,
        {
            if self.hotkey_names[i].vk == binding.vk && self.hotkey_names[i].flags == binding.flags {
                proof {
                    assert(bs[i as int] == self.hotkey_names@[i as int]@);
                    assert(is_first_key_index(bs, binding.vk, binding.flags, i as int));
                    assert(holds_key(bs, binding.vk, binding.flags));
                    let k = choose|k: int| is_first_key_index(bs, binding.vk, binding.flags, k);
                    lemma_first_key_index_unique(bs, binding.vk, binding.flags, i as int, k);
                }
                let ghost bv = binding@;
                let mut names: Vec<HotkeyBinding> = Vec::new();
                std::mem::swap(&mut names, &mut self.hotkey_names);
                names.set(i, binding);
                proof {
                    assert(bindings_view(names@) =~= bs.update(i as int, bv));
                }
                self.hotkey_names = names;
                return;
            }
            proof {
                assert(bs[i as int] == self.hotkey_names@[i as int]@);
            }
            i += 1;
        }
        proof {
            assert(!holds_key(bs, binding.vk, binding.flags));
        }
        let ghost bv = binding@;
        let mut names: Vec<HotkeyBinding> = Vec::new();
        std::mem::swap(&mut names, &mut self.hotkey_names);
        names.push(binding);
        proof {
            assert(bindings_view(names@) =~= bs.push(bv));
        }
        self.hotkey_names = names;
    }

    /// Registers each chord of `bindings` in turn.
    pub fn register_hotkeys(&mut self, bindings: Vec<HotkeyBinding>)
        ensures
            final(self)@.bindings == insert_all(old(self)@.bindings, bindings_view(bindings@)),
            final(self)@.key_states == old(self)@.key_states,
            keys_unique(final(self)@.bindings),
            bindings_map(final(self)@.bindings) == map_insert_all(
                bindings_map(old(self)@.bindings),
                bindings_view(bindings@),
            ),
            forall|i: int|
                0 <= i < bindings@.len() ==> bindings_map(final(self)@.bindings).contains_key(
                    (#[trigger] bindings@[i].vk, bindings@[i].flags),
                ),
    {
        proof {
            use_type_invariant(&*self);
        }
        let ghost new = bindings_view(bindings@);
        let n = bindings.len();
        let mut i: usize = 0;
        while i < n
            invariant
                n == bindings.len(),
                new == bindings_view(bindings@),
                i <= n,
                self@.bindings == insert_all(old(self)@.bindings, new.take(i as int)),
                self@.key_states == old(self)@.key_states,
                keys_unique(self@.bindings),
            decreases n - i,
        {
            let b = bindings[i].clone();
            self.register(b);
            proof {
                assert(new.take(i + 1).drop_last() =~= new.take(i as int));
                assert(new.take(i + 1).last() == new[i as int]);
            }
            i += 1;
        }
        proof {
            assert(new.take(n as int) =~= new);
            lemma_register_all_is_map_fold(old(self)@.bindings, new);
            assert forall|i: int| 0 <= i < bindings@.len() implies bindings_map(self@.bindings).contains_key(
                (#[trigger] bindings@[i].vk, bindings@[i].flags),
            ) by {
                assert(new[i] == bindings@[i]@);
                assert(bindings_map(self@.bindings).contains_key((new[i].0, new[i].1)));
            }
        }
    }

    /// The first registered chord that fires when `vk` goes down with `mods` held.
    fn find_match(&self, vk: u16, mods: ModifierState) -> (res: Option<HotkeyBinding>)
        ensures
            binding_opt_view(res) == matching_binding(self@.bindings, vk, mods),
            res matches Some(b) ==> exists|k: int| 0 <= k < self@.bindings.len() && #[trigger] self@.bindings[k] == b@,
            res is None ==> forall|k: int| 0 <= k < self@.bindings.len() ==> !binding_matches(#[trigger] self@.bindings[k], vk, mods),
    {
        let ghost bs = self@.bindings;
        let n = self.hotkey_names.len();
        let mut i: usize = 0;
        while i < n
            invariant
                n == self.hotkey_names.len(),
                i <= n,
                bs == self@.bindings,
                forall|j: int| 0 <= j < i ==> !binding_matches(#[trigger] bs[j], vk, mods),
            decreases n - i,
        {
            let b = &self.hotkey_names[i];
            proof {
                assert(bs[i as int] == b@);
            }
            if b.vk == vk && modifiers_of_flags(b.flags) == mods {
                proof {
                    assert(is_first_match(bs, vk, mods, i as int));
                    let k = choose|k: int| is_first_match(bs, vk, mods, k);
                    lemma_first_match_unique(bs, vk, mods, i as int, k);
                }
                let r = b.clone();
                proof {
                    assert(bs[i as int] == r@);
                }
                return Some(r);
            }
            i += 1;
        }
        proof {
            assert forall|k: int| !is_first_match(bs, vk, mods, k) by {
                if is_first_match(bs, vk, mods, k) {
                    assert(!binding_matches(bs[k], vk, mods));
                }
            }
        }
        None
    }

    /// Decides on one key message `msg` about the key `vk`: updates the
    /// table of pressed keys, reports a modifier that goes down for the
    /// first time or goes up, finds the first registered chord that fires on
    /// a key press with the modifiers then held, and swallows the key when a
    /// chord fired on a key that is not a system key.
    pub fn handle_key_message(&mut self, msg: u32, vk: u16) -> (res: HookDecision)
        requires
            is_key_down(msg) || is_key_up(msg) ==> vk < 256,
        ensures
            final(self)@ == hook_next(old(self)@, msg, vk),
            res@ == hook_decision(old(self)@, msg, vk),
            final(self)@.bindings == old(self)@.bindings,
            final(self)@.key_states.len() == 256,
            forall|k: int|
                0 <= k < 256 && k != vk ==> #[trigger] final(self)@.key_states[k] == old(self)@.key_states[k],
            is_key_down(msg) ==> final(self)@.key_states[vk as int],
            is_key_up(msg) ==> !final(self)@.key_states[vk as int],
            !is_key_down(msg) && !is_key_up(msg) ==> final(self)@.key_states == old(self)@.key_states,
            res.matched matches Some(b) ==> is_key_down(msg) && b.vk == vk && flags_modifiers(b.flags)
                == pressed_modifiers(final(self)@.key_states) && bindings_map(old(self)@.bindings).contains_key(
                (b.vk, b.flags),
            ) && bindings_map(old(self)@.bindings)[(b.vk, b.flags)] == b.name@,
            is_key_down(msg) && res.matched is None ==> forall|i: int|
                0 <= i < old(self)@.bindings.len() ==> !(#[trigger] old(self)@.bindings[i].0 == vk
                    && flags_modifiers(old(self)@.bindings[i].1) == pressed_modifiers(final(self)@.key_states)),
            res.block <==> (res.matched is Some && !(vk == VK_LWIN || vk == VK_RWIN || vk == VK_TAB || (vk
                == VK_ESCAPE && final(self)@.key_states[VK_MENU as int]))),
    {
        proof {
            use_type_invariant(&*self);
        }
        if msg == WM_KEYDOWN || msg == WM_SYSKEYDOWN {
            let mut key_states = self.key_states;
            let was_pressed = key_states[vk as usize];
            key_states[vk as usize] = true;
            let modifier_event = match modifier_for_key(vk) {
                Some(m) => if !was_pressed {
                    Some((m, true))
                } else {
                    None
                },
                None => None,
            };
            let mods = ModifierState {
                ctrl: key_states[VK_LCONTROL as usize] || key_states[VK_RCONTROL as usize],
                shift: key_states[VK_LSHIFT as usize] || key_states[VK_RSHIFT as usize],
                alt: key_states[VK_MENU as usize],
                meta: key_states[VK_LWIN as usize] || key_states[VK_RWIN as usize],
            };
            let matched = self.find_match(vk, mods);
            proof {
                if matched is Some {
                    let b = matched->Some_0;
                    let bs = self@.bindings;
                    let k = choose|k: int| 0 <= k < bs.len() && #[trigger] bs[k] == b@;
                    lemma_unique_key_index(bs, k);
                    assert(holds_key(bs, b.vk, b.flags));
                }
            }
            self.key_states = key_states;
            let block = match &matched {
                Some(_) => !(vk == VK_LWIN || vk == VK_RWIN || vk == VK_TAB || (vk == VK_ESCAPE
                    && mods.alt)),
                None => false,
            };
            HookDecision { modifier_event, matched, block }
        } else if msg == WM_KEYUP || msg == WM_SYSKEYUP {
            let modifier_event = match modifier_for_key(vk) {
                Some(m) => Some((m, false)),
                None => None,
            };
            self.key_states[vk as usize] = false;
            HookDecision { modifier_event, matched: None, block: false }
        } else {
            HookDecision { modifier_event: None, matched: None, block: false }
        }
    }
}


/// In a registry without repeated keys, a position that holds a key is the
/// first to hold it, and the one that `choose` picks.
proof fn lemma_unique_key_index(bs: Seq<(u16, u32, Seq<char>)>, i: int)
    requires
        keys_unique(bs),
        0 <= i < bs.len(),
    ensures
        is_first_key_index(bs, bs[i].0, bs[i].1, i),
        (choose|k: int| is_first_key_index(bs, bs[i].0, bs[i].1, k)) == i,
{
    assert forall|j: int| 0 <= j < i implies !(#[trigger] bs[j].0 == bs[i].0 && bs[j].1 == bs[i].1) by {
        assert(!(bs[j].0 == bs[i].0 && bs[j].1 == bs[i].1));
    }
    assert(is_first_key_index(bs, bs[i].0, bs[i].1, i));
    let k = choose|k: int| is_first_key_index(bs, bs[i].0, bs[i].1, k);
    lemma_first_key_index_unique(bs, bs[i].0, bs[i].1, i, k);
}

/// Registering keeps keys unique, and acts on the registry as a map:
/// the key and flags of the new chord now give its name, and every other
/// key keeps what it had.
pub proof fn lemma_register_is_map_insert(bs: Seq<(u16, u32, Seq<char>)>, b: (u16, u32, Seq<char>))
    requires
        keys_unique(bs),
    ensures
        keys_unique(insert_binding(bs, b)),
        bindings_map(insert_binding(bs, b)) == bindings_map(bs).insert((b.0, b.1), b.2),
{
    let new = insert_binding(bs, b);
    if holds_key(bs, b.0, b.1) {
        let w = choose|i: int| 0 <= i < bs.len() && #[trigger] bs[i].0 == b.0 && bs[i].1 == b.1;
        lemma_unique_key_index(bs, w);
        let i0 = choose|i: int| is_first_key_index(bs, b.0, b.1, i);
        assert(i0 == w);
        assert(new == bs.update(i0, b));
        assert forall|i: int, j: int| 0 <= i < j < new.len() implies !(#[trigger] new[i].0 == #[trigger] new[j].0 && new[i].1 == new[j].1) by {
            if i == i0 {
                assert(!(bs[i].0 == bs[j].0 && bs[i].1 == bs[j].1));
            } else if j == i0 {
                assert(!(bs[i].0 == bs[j].0 && bs[i].1 == bs[j].1));
            } else {
                assert(!(bs[i].0 == bs[j].0 && bs[i].1 == bs[j].1));
            }
        }
        assert forall|k: (u16, u32)| #[trigger] holds_key(new, k.0, k.1) == (holds_key(bs, k.0, k.1) || k == (b.0, b.1)) by {
            if holds_key(new, k.0, k.1) {
                let j = choose|j: int| 0 <= j < new.len() && #[trigger] new[j].0 == k.0 && new[j].1 == k.1;
                if j != i0 {
                    assert(bs[j].0 == k.0 && bs[j].1 == k.1);
                }
            }
            if holds_key(bs, k.0, k.1) {
                let j = choose|j: int| 0 <= j < bs.len() && #[trigger] bs[j].0 == k.0 && bs[j].1 == k.1;
                if j != i0 {
                    assert(new[j].0 == k.0 && new[j].1 == k.1);
                } else {
                    assert(new[i0].0 == k.0 && new[i0].1 == k.1);
                }
            }
            if k == (b.0, b.1) {
                assert(new[i0].0 == k.0 && new[i0].1 == k.1);
            }
        }
        assert forall|k: (u16, u32)| #[trigger] holds_key(new, k.0, k.1) implies bindings_map(new)[k] == bindings_map(bs).insert((b.0, b.1), b.2)[k] by {
            let j = choose|j: int| 0 <= j < new.len() && #[trigger] new[j].0 == k.0 && new[j].1 == k.1;
            lemma_unique_key_index(new, j);
            if j != i0 {
                assert(bs[j] == new[j]);
                lemma_unique_key_index(bs, j);
            }
        }
        assert(bindings_map(new) =~= bindings_map(bs).insert((b.0, b.1), b.2));
    } else {
        assert(new == bs.push(b));
        let n = bs.len() as int;
        assert forall|i: int, j: int| 0 <= i < j < new.len() implies !(#[trigger] new[i].0 == #[trigger] new[j].0 && new[i].1 == new[j].1) by {
            if j == n {
                assert(!(bs[i].0 == b.0 && bs[i].1 == b.1));
            } else {
                assert(!(bs[i].0 == bs[j].0 && bs[i].1 == bs[j].1));
            }
        }
        assert forall|k: (u16, u32)| #[trigger] holds_key(new, k.0, k.1) == (holds_key(bs, k.0, k.1) || k == (b.0, b.1)) by {
            if holds_key(new, k.0, k.1) {
                let j = choose|j: int| 0 <= j < new.len() && #[trigger] new[j].0 == k.0 && new[j].1 == k.1;
                if j != n {
                    assert(bs[j].0 == k.0 && bs[j].1 == k.1);
                }
            }
            if holds_key(bs, k.0, k.1) {
                let j = choose|j: int| 0 <= j < bs.len() && #[trigger] bs[j].0 == k.0 && bs[j].1 == k.1;
                assert(new[j].0 == k.0 && new[j].1 == k.1);
            }
            if k == (b.0, b.1) {
                assert(new[n].0 == k.0 && new[n].1 == k.1);
            }
        }
        assert forall|k: (u16, u32)| #[trigger] holds_key(new, k.0, k.1) implies bindings_map(new)[k] == bindings_map(bs).insert((b.0, b.1), b.2)[k] by {
            let j = choose|j: int| 0 <= j < new.len() && #[trigger] new[j].0 == k.0 && new[j].1 == k.1;
            lemma_unique_key_index(new, j);
            if j != n {
                assert(bs[j] == new[j]);
                lemma_unique_key_index(bs, j);
            }
        }
        assert(bindings_map(new) =~= bindings_map(bs).insert((b.0, b.1), b.2));
    }
}


/// Registering chords one after another never leaves two entries with the
/// same key and flags.
pub proof fn lemma_register_all_keeps_keys_unique(bs: Seq<(u16, u32, Seq<char>)>, new: Seq<(u16, u32, Seq<char>)>)
    requires
        keys_unique(bs),
    ensures
        keys_unique(insert_all(bs, new)),
    decreases new.len(),
{
    if new.len() > 0 {
        lemma_register_all_keeps_keys_unique(bs, new.drop_last());
        lemma_register_is_map_insert(insert_all(bs, new.drop_last()), new.last());
    }
}

/// A key held down and pressed again (auto-repeat) reports its modifier
/// only once: the second press gives no modifier event.
pub proof fn lemma_repeat_press_reports_modifier_once(ks: Seq<bool>, msg1: u32, msg2: u32, vk: u16)
    requires
        ks.len() == 256,
        vk < 256,
        is_key_down(msg1),
        is_key_down(msg2),
    ensures
        modifier_transition(next_key_states(ks, msg1, vk), msg2, vk) is None,
{
}

/// Pressing a modifier that is up reports it going down, releasing it then
/// reports it going up, and the table of pressed keys is as before.
pub proof fn lemma_modifier_press_release(ks: Seq<bool>, down: u32, up: u32, vk: u16, m: Modifier)
    requires
        ks.len() == 256,
        vk < 256,
        is_key_down(down),
        is_key_up(up),
        modifier_of(vk) == Some(m),
        !ks[vk as int],
    ensures
        modifier_transition(ks, down, vk) == Some((m, true)),
        modifier_transition(next_key_states(ks, down, vk), up, vk) == Some((m, false)),
        next_key_states(next_key_states(ks, down, vk), up, vk) == ks,
{
    assert(next_key_states(next_key_states(ks, down, vk), up, vk) =~= ks);
}

/// A key release never fires a chord and is never swallowed, and leaves
/// the key marked as up.
pub proof fn lemma_release_passes_through(pre: HotkeyStateView, msg: u32, vk: u16)
    requires
        pre.key_states.len() == 256,
        vk < 256,
        is_key_up(msg),
    ensures
        hook_decision(pre, msg, vk).matched is None,
        !hook_decision(pre, msg, vk).block,
        !hook_next(pre, msg, vk).key_states[vk as int],
{
}

/// A key is swallowed exactly when a chord fired and the key is not a
/// system key; the Windows keys and Tab are never swallowed.
pub proof fn lemma_block_only_fired_non_system(pre: HotkeyStateView, msg: u32, vk: u16)
    requires
        pre.key_states.len() == 256,
        vk < 256,
    ensures
        hook_decision(pre, msg, vk).block <==> (hook_decision(pre, msg, vk).matched is Some
            && !is_system_key(vk, pressed_modifiers(hook_next(pre, msg, vk).key_states).alt)),
        (vk == VK_LWIN || vk == VK_RWIN || vk == VK_TAB) ==> !hook_decision(pre, msg, vk).block,
{
}

/// Two flags within the four modifier bits that require the same modifiers
/// are equal.
proof fn lemma_modifier_flags_determined(f1: u32, f2: u32)
    requires
        f1 & !0xFu32 == 0,
        f2 & !0xFu32 == 0,
        (f1 & MOD_CONTROL != 0) == (f2 & MOD_CONTROL != 0),
        (f1 & MOD_SHIFT != 0) == (f2 & MOD_SHIFT != 0),
        (f1 & MOD_ALT != 0) == (f2 & MOD_ALT != 0),
        (f1 & MOD_WIN != 0) == (f2 & MOD_WIN != 0),
    ensures
        f1 == f2,
{
    assert(f1 == f2) by (bit_vector)
        requires
            f1 & !0xFu32 == 0,
            f2 & !0xFu32 == 0,
            (f1 & 2u32 != 0) == (f2 & 2u32 != 0),
            (f1 & 4u32 != 0) == (f2 & 4u32 != 0),
            (f1 & 1u32 != 0) == (f2 & 1u32 != 0),
            (f1 & 8u32 != 0) == (f2 & 8u32 != 0),
    ;
}

/// Whether every registered chord uses only the four modifier flags.
pub open spec fn flags_are_modifiers(bs: Seq<(u16, u32, Seq<char>)>) -> bool {
    forall|i: int| 0 <= i < bs.len() ==> #[trigger] bs[i].1 & !0xFu32 == 0
}

/// A registered chord fires: once `b` is registered (in a registry without
/// repeated keys, where every chord uses only the four modifier flags), a
/// press of its key while exactly its modifiers are held reports `b`
/// itself, and swallows the key unless it is a system key.
pub proof fn lemma_registered_chord_fires(pre: HotkeyStateView, bs: Seq<(u16, u32, Seq<char>)>, b: (u16, u32, Seq<char>), msg: u32)
    requires
        pre.key_states.len() == 256,
        b.0 < 256,
        is_key_down(msg),
        keys_unique(bs),
        flags_are_modifiers(bs),
        b.1 & !0xFu32 == 0,
        pre.bindings == insert_binding(bs, b),
        pressed_modifiers(next_key_states(pre.key_states, msg, b.0)) == flags_modifiers(b.1),
    ensures
        hook_decision(pre, msg, b.0).matched == Some(b),
        hook_decision(pre, msg, b.0).block == !is_system_key(b.0, flags_modifiers(b.1).alt),
{
    let nb = pre.bindings;
    let mods = flags_modifiers(b.1);
    lemma_register_is_map_insert(bs, b);
    // the position of b in the new registry
    let p: int = if holds_key(bs, b.0, b.1) {
        choose|i: int| is_first_key_index(bs, b.0, b.1, i)
    } else {
        bs.len() as int
    };
    if holds_key(bs, b.0, b.1) {
        let w = choose|i: int| 0 <= i < bs.len() && #[trigger] bs[i].0 == b.0 && bs[i].1 == b.1;
        lemma_unique_key_index(bs, w);
    }
    assert(nb[p] == b);
    assert forall|j: int| 0 <= j < nb.len() && binding_matches(#[trigger] nb[j], b.0, mods) implies j == p by {
        if j != p {
            assert(nb[j] == bs[j]);
            assert(bs[j].1 & !0xFu32 == 0);
            lemma_modifier_flags_determined(nb[j].1, b.1);
            assert(!(nb[j].0 == nb[p].0 && nb[j].1 == nb[p].1));
        }
    }
    assert(is_first_match(nb, b.0, mods, p));
    let k = choose|k: int| is_first_match(nb, b.0, mods, k);
    lemma_first_match_unique(nb, b.0, mods, p, k);
}

/// The registry map after inserting each of `new` in turn.
pub open spec fn map_insert_all(m: Map<(u16, u32), Seq<char>>, new: Seq<(u16, u32, Seq<char>)>) -> Map<
    (u16, u32),
    Seq<char>,
>
    decreases new.len(),
{
    if new.len() == 0 {
        m
    } else {
        map_insert_all(m, new.drop_last()).insert((new.last().0, new.last().1), new.last().2)
    }
}

/// Registering a list of chords acts on the registry as a map: each chord
/// of the list is inserted in turn, so every listed chord is registered
/// (under its key and flags) and a later chord with the same key and flags
/// replaces an earlier one, whatever chords the key has under other flags.
pub proof fn lemma_register_all_is_map_fold(bs: Seq<(u16, u32, Seq<char>)>, new: Seq<(u16, u32, Seq<char>)>)
    requires
        keys_unique(bs),
    ensures
        bindings_map(insert_all(bs, new)) == map_insert_all(bindings_map(bs), new),
        forall|i: int| 0 <= i < new.len() ==> bindings_map(insert_all(bs, new)).contains_key(
            (#[trigger] new[i].0, new[i].1),
        ),
    decreases new.len(),
{
    if new.len() > 0 {
        lemma_register_all_is_map_fold(bs, new.drop_last());
        lemma_register_all_keeps_keys_unique(bs, new.drop_last());
        lemma_register_is_map_insert(insert_all(bs, new.drop_last()), new.last());
        assert forall|i: int| 0 <= i < new.len() implies bindings_map(insert_all(bs, new)).contains_key(
            (#[trigger] new[i].0, new[i].1),
        ) by {
            if i < new.len() - 1 {
                assert(new.drop_last()[i] == new[i]);
            }
        }
    }
}

/// A key message changes the pressed-key table only at its own key: a
/// press marks the key as held, a release marks it as up, any other
/// message changes nothing, and every other key keeps its state.
pub proof fn lemma_key_message_changes_only_its_key(ks: Seq<bool>, msg: u32, vk: u16)
    requires
        ks.len() == 256,
        vk < 256,
    ensures
        next_key_states(ks, msg, vk).len() == 256,
        forall|k: int| 0 <= k < 256 && k != vk ==> #[trigger] next_key_states(ks, msg, vk)[k] == ks[k],
        is_key_down(msg) ==> next_key_states(ks, msg, vk)[vk as int],
        is_key_up(msg) ==> !next_key_states(ks, msg, vk)[vk as int],
        !is_key_down(msg) && !is_key_up(msg) ==> next_key_states(ks, msg, vk) == ks,
{
}

/// Releasing a key that is not a modifier keeps every held modifier held:
/// a chord needs its modifiers only while they are down, however many other
/// keys are tapped meanwhile.
pub proof fn lemma_release_keeps_modifiers(ks: Seq<bool>, msg: u32, vk: u16)
    requires
        ks.len() == 256,
        vk < 256,
        is_key_up(msg),
        vk != VK_LCONTROL && vk != VK_RCONTROL && vk != VK_LSHIFT && vk != VK_RSHIFT && vk != VK_MENU && vk
            != VK_LWIN && vk != VK_RWIN,
    ensures
        pressed_modifiers(next_key_states(ks, msg, vk)) == pressed_modifiers(ks),
{
    lemma_key_message_changes_only_its_key(ks, msg, vk);
    assert(next_key_states(ks, msg, vk)[VK_LCONTROL as int] == ks[VK_LCONTROL as int]);
    assert(next_key_states(ks, msg, vk)[VK_RCONTROL as int] == ks[VK_RCONTROL as int]);
    assert(next_key_states(ks, msg, vk)[VK_LSHIFT as int] == ks[VK_LSHIFT as int]);
    assert(next_key_states(ks, msg, vk)[VK_RSHIFT as int] == ks[VK_RSHIFT as int]);
    assert(next_key_states(ks, msg, vk)[VK_MENU as int] == ks[VK_MENU as int]);
    assert(next_key_states(ks, msg, vk)[VK_LWIN as int] == ks[VK_LWIN as int]);
    assert(next_key_states(ks, msg, vk)[VK_RWIN as int] == ks[VK_RWIN as int]);
}

} // verus!

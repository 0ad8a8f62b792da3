//! Tick-driven input.
//!
//! Gameplay reads [`TickInput`], a snapshot of which [`Action`]s are held
//! during the current simulation tick. Edges (`just_pressed`) are computed
//! in tick space, not frame space. A recorded input trace is one
//! [`Actions`] value per tick, fed to [`TickInput::advance`].

use vstd::prelude::*;

verus! {

/// The keys the game is bound to. Only [`Action::key`] names them.
#[derive(Clone, Copy, Debug, PartialEq, Eq, Hash, Structural)]
pub enum Key {
    KeyA,
    KeyD,
    KeyW,
    KeyS,
    Space,
    KeyR,
    KeyP,
}

/// Everything the player can do. Order is significant: it defines the bit
/// layout of [`Actions`] (declaration order, lowest bit first).
#[derive(Clone, Copy, Debug, PartialEq, Eq, Hash, Structural)]
pub enum Action {
    Left,
    Right,
    Up,
    Down,
    Jump,
    Restart,
    PrintInventory,
}

/// Whether the action `a` is in the byte `bits`.
pub open spec fn holds(bits: u8, a: Action) -> bool {
    bits & a.mask() != 0
}

impl Action {
    pub const ALL: [Action; 7] = [
        Action::Left,
        Action::Right,
        Action::Up,
        Action::Down,
        Action::Jump,
        Action::Restart,
        Action::PrintInventory,
    ];

    /// Position of the action's bit in [`Actions`].
    pub open spec fn bit_index(self) -> u8 {
        match self {
            Action::Left => 0,
            Action::Right => 1,
            Action::Up => 2,
            Action::Down => 3,
            Action::Jump => 4,
            Action::Restart => 5,
            Action::PrintInventory => 6,
        }
    }

    /// The action's bit in [`Actions`].
    pub open spec fn mask(self) -> u8 {
        1u8 << self.bit_index()
    }

    pub open spec fn key_spec(self) -> Key {
        match self {
            Action::Left => Key::KeyA,
            Action::Right => Key::KeyD,
            Action::Up => Key::KeyW,
            Action::Down => Key::KeyS,
            Action::Jump => Key::Space,
            Action::Restart => Key::KeyR,
            Action::PrintInventory => Key::KeyP,
        }
    }

    /// Default keyboard binding. The only place keys are named.
    #[verifier::when_used_as_spec(key_spec)]
    pub fn key(self) -> (k: Key)
        ensures
            k == self.key_spec(),
    {
        match self {
            Action::Left => Key::KeyA,
            Action::Right => Key::KeyD,
            Action::Up => Key::KeyW,
            Action::Down => Key::KeyS,
            Action::Jump => Key::Space,
            Action::Restart => Key::KeyR,
            Action::PrintInventory => Key::KeyP,
        }
    }

    fn index(self) -> (i: u8)
        ensures
            i == self.bit_index(),
            i < 7,
    {
        match self {
            Action::Left => 0,
            Action::Right => 1,
            Action::Up => 2,
            Action::Down => 3,
            Action::Jump => 4,
            Action::Restart => 5,
            Action::PrintInventory => 6,
        }
    }

    fn bit(self) -> (b: u8)
        ensures
            b == self.mask(),
    {
        1u8 << self.index()
    }
}



/// Setting bit `i` of `x` sets bit `i` and leaves every other bit as it was.
proof fn lemma_or_bit(x: u8, i: u8, j: u8)
    by (bit_vector)
    requires
        i < 8,
        j < 8,
    ensures
        ((x | (1u8 << i)) & (1u8 << j) != 0) == (i == j || x & (1u8 << j) != 0),
{
}

/// Two bytes below 128 that agree on the seven low bits are equal.
proof fn lemma_low_seven_bits_determine(x: u8, y: u8)
    by (bit_vector)
    requires
        x < 128,
        y < 128,
        (x & 1u8 != 0) == (y & 1u8 != 0),
        (x & 2u8 != 0) == (y & 2u8 != 0),
        (x & 4u8 != 0) == (y & 4u8 != 0),
        (x & 8u8 != 0) == (y & 8u8 != 0),
        (x & 16u8 != 0) == (y & 16u8 != 0),
        (x & 32u8 != 0) == (y & 32u8 != 0),
        (x & 64u8 != 0) == (y & 64u8 != 0),
    ensures
        x == y,
{
}

/// The seven action bits, as numbers.
proof fn lemma_mask_values()
    ensures
        Action::Left.mask() == 1,
        Action::Right.mask() == 2,
        Action::Up.mask() == 4,
        Action::Down.mask() == 8,
        Action::Jump.mask() == 16,
        Action::Restart.mask() == 32,
        Action::PrintInventory.mask() == 64,
{
    assert(1u8 << 0u8 == 1u8) by (bit_vector);
    assert(1u8 << 1u8 == 2u8) by (bit_vector);
    assert(1u8 << 2u8 == 4u8) by (bit_vector);
    assert(1u8 << 3u8 == 8u8) by (bit_vector);
    assert(1u8 << 4u8 == 16u8) by (bit_vector);
    assert(1u8 << 5u8 == 32u8) by (bit_vector);
    assert(1u8 << 6u8 == 64u8) by (bit_vector);
}

/// Adding action `a` to a byte: `b` is then held exactly when it is `a` or
/// was held before.
pub proof fn lemma_holds_after_insert(bits: u8, a: Action, b: Action)
    ensures
        holds(bits | a.mask(), b) == (a == b || holds(bits, b)),
{
    lemma_or_bit(bits, a.bit_index(), b.bit_index());
}

/// Every action has its own bit: the bits of two different actions do not
/// overlap, and the seven bits lie below 128.
pub proof fn lemma_bits_distinct(a: Action, b: Action)
    ensures
        a.mask() != 0,
        a.mask() < 128,
        a != b ==> a.mask() & b.mask() == 0,
        holds(a.mask(), b) == (a == b),
{
    lemma_mask_values();
    assert(1u8 & 2u8 == 0u8 && 1u8 & 4u8 == 0u8 && 1u8 & 8u8 == 0u8 && 1u8 & 16u8 == 0u8
        && 1u8 & 32u8 == 0u8 && 1u8 & 64u8 == 0u8 && 2u8 & 4u8 == 0u8 && 2u8 & 8u8 == 0u8
        && 2u8 & 16u8 == 0u8 && 2u8 & 32u8 == 0u8 && 2u8 & 64u8 == 0u8 && 4u8 & 8u8 == 0u8
        && 4u8 & 16u8 == 0u8 && 4u8 & 32u8 == 0u8 && 4u8 & 64u8 == 0u8 && 8u8 & 16u8 == 0u8
        && 8u8 & 32u8 == 0u8 && 8u8 & 64u8 == 0u8 && 16u8 & 32u8 == 0u8 && 16u8 & 64u8 == 0u8
        && 32u8 & 64u8 == 0u8) by (bit_vector);
    assert(1u8 & 1u8 == 1u8 && 2u8 & 2u8 == 2u8 && 4u8 & 4u8 == 4u8 && 8u8 & 8u8 == 8u8
        && 16u8 & 16u8 == 16u8 && 32u8 & 32u8 == 32u8 && 64u8 & 64u8 == 64u8) by (bit_vector);
    assert(2u8 & 1u8 == 0u8 && 4u8 & 1u8 == 0u8 && 8u8 & 1u8 == 0u8 && 16u8 & 1u8 == 0u8
        && 32u8 & 1u8 == 0u8 && 64u8 & 1u8 == 0u8 && 4u8 & 2u8 == 0u8 && 8u8 & 2u8 == 0u8
        && 16u8 & 2u8 == 0u8 && 32u8 & 2u8 == 0u8 && 64u8 & 2u8 == 0u8 && 8u8 & 4u8 == 0u8
        && 16u8 & 4u8 == 0u8 && 32u8 & 4u8 == 0u8 && 64u8 & 4u8 == 0u8 && 16u8 & 8u8 == 0u8
        && 32u8 & 8u8 == 0u8 && 64u8 & 8u8 == 0u8 && 32u8 & 16u8 == 0u8 && 64u8 & 16u8 == 0u8
        && 64u8 & 32u8 == 0u8) by (bit_vector);
}

/// The empty byte holds no action.
pub proof fn lemma_zero_holds_nothing(a: Action)
    ensures
        !holds(0, a),
{
    assert(forall|m: u8| #![auto] 0u8 & m == 0u8) by (bit_vector);
}

/// Two bytes below 128 that hold the same actions are the same byte: the
/// seven action bits are all there is to such a set.
pub proof fn lemma_same_actions_same_bits(x: u8, y: u8)
    requires
        x < 128,
        y < 128,
        forall|a: Action| holds(x, a) == holds(y, a),
    ensures
        x == y,
{
    lemma_mask_values();
    assert(holds(x, Action::Left) == holds(y, Action::Left));
    assert(holds(x, Action::Right) == holds(y, Action::Right));
    assert(holds(x, Action::Up) == holds(y, Action::Up));
    assert(holds(x, Action::Down) == holds(y, Action::Down));
    assert(holds(x, Action::Jump) == holds(y, Action::Jump));
    assert(holds(x, Action::Restart) == holds(y, Action::Restart));
    assert(holds(x, Action::PrintInventory) == holds(y, Action::PrintInventory));
    lemma_low_seven_bits_determine(x, y);
}

/// Each action has its own key, and [`Action::ALL`] lists every action once,
/// in bit order.
pub proof fn lemma_binding_and_order(a: Action, b: Action)
    ensures
        a != b ==> a.key() != b.key(),
        Action::ALL@.len() == 7,
        Action::ALL@[a.bit_index() as int] == a,
        a.bit_index() < 7,
{
}

/// A set of actions, packed into one byte (bit `i` is the action at
/// position `i` of [`Action::ALL`]).
#[derive(Clone, Copy, Debug, PartialEq, Eq, Hash, Structural)]
pub struct Actions(u8);

impl View for Actions {
    type V = u8;

    closed spec fn view(&self) -> u8 {
        self.0
    }
}

impl Actions {
    /// The empty set.
    pub open spec fn empty() -> Actions {
        Actions::of_bits(0)
    }

    /// The empty set (no action held).
    pub fn none() -> (r: Actions)
        ensures
            r == Actions::empty(),
            r@ == 0,
            forall|a: Action| !r.has(a),
    {
        proof {
            assert forall|a: Action| !holds(0, a) by {
                lemma_zero_holds_nothing(a);
            }
        }
        Actions(0)
    }

    /// The set whose byte is `b`.
    pub closed spec fn of_bits(b: u8) -> Actions {
        Actions(b)
    }

    pub open spec fn has(self, a: Action) -> bool {
        holds(self@, a)
    }

    /// Sets are equal exactly when their bytes are; `of_bits` gives back
    /// the byte it was made from; the empty set is the byte 0.
    pub proof fn lemma_view(self, other: Actions, b: u8)
        ensures
            (self@ == other@) == (self == other),
            Actions::of_bits(b)@ == b,
            Actions::of_bits(self@) == self,
            Actions::empty()@ == 0,
            forall|a: Action| !Actions::empty().has(a),
    {
        assert forall|a: Action| !Actions::empty().has(a) by {
            lemma_zero_holds_nothing(a);
        }
    }

    pub fn contains(self, action: Action) -> (r: bool)
        ensures
            r == self.has(action),
    {
        self.0 & action.bit() != 0
    }

    pub fn insert(&mut self, action: Action)
        ensures
            final(self)@ == old(self)@ | action.mask(),
            forall|a: Action| final(self).has(a) == (a == action || old(self).has(a)),
    {
        self.0 = self.0 | action.bit();
        proof {
            assert forall|a: Action| self.has(a) == (a == action || old(self).has(a)) by {
                lemma_holds_after_insert(old(self)@, action, a);
            }
        }
    }

    pub fn with(self, action: Action) -> (r: Self)
        ensures
            r@ == self@ | action.mask(),
            forall|a: Action| r.has(a) == (a == action || self.has(a)),
    {
        let mut s = self;
        s.insert(action);
        s
    }

    pub fn bits(self) -> (r: u8)
        ensures
            r == self@,
    {
        self.0
    }

    pub fn from_bits(bits: u8) -> (r: Self)
        ensures
            r@ == bits,
            r == Actions::of_bits(bits),
    {
        Actions(bits)
    }
}

impl Default for Actions {
    fn default() -> (r: Actions)
        ensures
            r == Actions::empty(),
            r@ == 0,
    {
        Actions(0)
    }
}


/// Input state for the current simulation tick. Gameplay reads this, not
/// the keyboard.
#[derive(Clone, Copy, Debug)]
pub struct TickInput {
    held: Actions,
    prev: Actions,
    /// Number of ticks advanced so far (0 before the first tick).
    tick: u64,
}

impl TickInput {
    /// The actions held during the current tick.
    pub closed spec fn held_now(self) -> Actions {
        self.held
    }

    /// The actions held during the tick before.
    pub closed spec fn held_before(self) -> Actions {
        self.prev
    }

    /// Ticks advanced so far.
    pub closed spec fn tick_count(self) -> u64 {
        self.tick
    }

    /// The state before the first tick: nothing held, no tick counted.
    pub closed spec fn initial() -> TickInput {
        TickInput { held: Actions::empty(), prev: Actions::empty(), tick: 0 }
    }

    /// The state one tick later, with `held` the actions of that tick.
    pub closed spec fn step(self, held: Actions) -> TickInput {
        TickInput { held, prev: self.held, tick: (self.tick + 1) as u64 }
    }

    pub open spec fn is_pressed(self, action: Action) -> bool {
        self.held_now().has(action)
    }

    pub open spec fn is_just_pressed(self, action: Action) -> bool {
        self.held_now().has(action) && !self.held_before().has(action)
    }

    /// What a step does to the three parts of the state, and what the
    /// initial state holds.
    pub proof fn lemma_step(self, held: Actions)
        ensures
            self.step(held).held_now() == held,
            self.step(held).held_before() == self.held_now(),
            self.tick_count() < u64::MAX ==> self.step(held).tick_count() == self.tick_count() + 1,
            TickInput::initial().held_now() == Actions::empty(),
            TickInput::initial().held_before() == Actions::empty(),
            TickInput::initial().tick_count() == 0,
    {
    }

    pub fn pressed(&self, action: Action) -> (r: bool)
        ensures
            r == self.is_pressed(action),
    {
        self.held.contains(action)
    }

    /// True on the first tick an action is held.
    pub fn just_pressed(&self, action: Action) -> (r: bool)
        ensures
            r == self.is_just_pressed(action),
    {
        self.held.contains(action) && !self.prev.contains(action)
    }

    pub fn held(&self) -> (r: Actions)
        ensures
            r == self.held_now(),
    {
        self.held
    }

    pub fn tick(&self) -> (r: u64)
        ensures
            r == self.tick_count(),
    {
        self.tick
    }

    /// Advance one tick with the given held set. Keyboard sampling calls
    /// this; so does trace replay.
    pub fn advance(&mut self, held: Actions)
        requires
            old(self).tick_count() < u64::MAX,
        ensures
            *final(self) == old(self).step(held),
            final(self).held_now() == held,
            final(self).held_before() == old(self).held_now(),
            final(self).tick_count() == old(self).tick_count() + 1,
    {
        self.prev = self.held;
        self.held = held;
        self.tick = self.tick + 1;
    }
}

impl Default for TickInput {
    fn default() -> (r: TickInput)
        ensures
            r == TickInput::initial(),
            r.held_now() == Actions::empty(),
            r.held_before() == Actions::empty(),
            r.tick_count() == 0,
    {
        TickInput { held: Actions::none(), prev: Actions::none(), tick: 0 }
    }
}

/// The tick input after feeding `trace` (one held set per tick) to a fresh
/// [`TickInput`].
pub open spec fn replayed(trace: Seq<Actions>) -> TickInput
    decreases trace.len(),
{
    if trace.len() == 0 {
        TickInput::initial()
    } else {
        replayed(trace.drop_last()).step(trace.last())
    }
}

/// An action is only newly pressed while it is held.
pub proof fn lemma_just_pressed_is_pressed(t: TickInput, a: Action)
    ensures
        t.is_just_pressed(a) ==> t.is_pressed(a),
{
}

/// Edges are computed per tick: after a tick with held set `h`, an action
/// is pressed exactly when `h` holds it, and newly pressed exactly when `h`
/// holds it and the tick before did not.
pub proof fn lemma_edges_per_tick(t: TickInput, h: Actions, a: Action)
    ensures
        t.step(h).is_pressed(a) == h.has(a),
        t.step(h).is_just_pressed(a) == (h.has(a) && !t.is_pressed(a)),
{
}

/// An action held for two ticks in a row is not newly pressed on the
/// second; released, it is no longer pressed; pressed again after a
/// release, it is newly pressed again.
pub proof fn lemma_hold_release_repress(t: TickInput, h: Actions, a: Action)
    ensures
        !t.step(h).step(h).is_just_pressed(a),
        !t.step(Actions::empty()).is_pressed(a),
        h.has(a) ==> t.step(Actions::empty()).step(h).is_just_pressed(a),
{
    lemma_zero_holds_nothing(a);
}

/// Replaying a trace of held sets is deterministic and forgets all but the
/// last two entries: the state counts the entries, holds the last one and
/// remembers the one before it.
pub proof fn lemma_replay(trace: Seq<Actions>)
    requires
        trace.len() <= u64::MAX,
    ensures
        replayed(trace).tick_count() == trace.len(),
        replayed(trace).held_now() == (if trace.len() == 0 {
            Actions::empty()
        } else {
            trace.last()
        }),
        replayed(trace).held_before() == (if trace.len() < 2 {
            Actions::empty()
        } else {
            trace[trace.len() - 2]
        }),
    decreases trace.len(),
{
    if trace.len() > 0 {
        let rest = trace.drop_last();
        lemma_replay(rest);
        if trace.len() >= 2 {
            assert(rest.last() == trace[trace.len() - 2]);
        }
    }
}

/// Key presses that happened since the last tick, so that a tap shorter
/// than one tick still registers.
#[derive(Clone, Copy, Debug)]
pub struct PendingInput {
    pub pressed_since_tick: Actions,
}

impl Default for PendingInput {
    fn default() -> (r: PendingInput)
        ensures
            r.pressed_since_tick == Actions::empty(),
    {
        PendingInput { pressed_since_tick: Actions::none() }
    }
}

/// Whether `key` is among `keys`.
fn key_listed(keys: &[Key], key: Key) -> (r: bool)
    ensures
        r == keys@.contains(key),
{
    let mut i: usize = 0;
    while i < keys.len()
        invariant
            i <= keys@.len(),
            forall|j: int| 0 <= j < i ==> keys@[j] != key,
        decreases keys@.len() - i,
    {
        if keys[i] == key {
            assert(keys@[i as int] == key);
            return true;
        }
        i = i + 1;
    }
    false
}

/// The actions whose key is among `keys` (keys bound to nothing add
/// nothing).
pub fn actions_for_keys(keys: &[Key]) -> (r: Actions)
    ensures
        forall|a: Action| r.has(a) == keys@.contains(a.key()),
        r@ < 128,
{
    let all = Action::ALL;
    let mut acc = Actions::none();
    let mut i: usize = 0;
    while i < 7
        invariant
            i <= 7,
            all == Action::ALL,
            acc@ < 128,
            forall|a: Action| acc.has(a) == (a.bit_index() < i && keys@.contains(a.key())),
        decreases 7 - i,
    {
        let action = all[i];
        proof {
            lemma_binding_and_order(action, action);
        }
        let old_acc = acc;
        if key_listed(keys, action.key()) {
            acc.insert(action);
            proof {
                lemma_bits_distinct(action, action);
                let m = action.mask();
                let o = old_acc@;
                assert(o | m < 128) by (bit_vector)
                    requires
                        o < 128,
                        m < 128,
                ;
            }
        }
        proof {
            assert forall|a: Action| acc.has(a) == (a.bit_index() < i + 1 && keys@.contains(
                a.key(),
            )) by {
                lemma_binding_and_order(a, action);
            }
        }
        i = i + 1;
    }
    acc
}

/// Remember the actions whose key was pressed during this rendered frame.
pub fn accumulate_input(pending: &mut PendingInput, just_pressed_keys: &[Key])
    ensures
        forall|a: Action|
            final(pending).pressed_since_tick.has(a) == (old(pending).pressed_since_tick.has(a)
                || just_pressed_keys@.contains(a.key())),
        old(pending).pressed_since_tick@ < 128 ==> final(pending).pressed_since_tick@ < 128,
{
    let pressed = actions_for_keys(just_pressed_keys);
    let before = pending.pressed_since_tick;
    let bits = before.bits() | pressed.bits();
    pending.pressed_since_tick = Actions::from_bits(bits);
    proof {
        assert forall|a: Action|
            pending.pressed_since_tick.has(a) == (old(pending).pressed_since_tick.has(a)
                || just_pressed_keys@.contains(a.key())) by {
            assert(pressed.has(a) == just_pressed_keys@.contains(a.key()));
            let x = before@;
            let y = pressed@;
            let m = a.mask();
            assert(((x | y) & m != 0) == (x & m != 0 || y & m != 0)) by (bit_vector);
        }
        let x = before@;
        let y = pressed@;
        assert(x < 128 ==> x | y < 128) by (bit_vector)
            requires
                y < 128,
        ;
    }
}

/// Sample one simulation tick: an action is held during the tick if its
/// key is held now or was pressed at any time since the last tick. The
/// pending presses are then forgotten.
pub fn sample_tick_input(
    held_keys: &[Key],
    pending: &mut PendingInput,
    tick_input: &mut TickInput,
)
    requires
        old(tick_input).tick_count() < u64::MAX,
    ensures
        final(pending).pressed_since_tick == Actions::empty(),
        final(tick_input).held_before() == old(tick_input).held_now(),
        final(tick_input).tick_count() == old(tick_input).tick_count() + 1,
        forall|a: Action|
            final(tick_input).held_now().has(a) == (held_keys@.contains(a.key())
                || old(pending).pressed_since_tick.has(a)),
        final(tick_input).held_now()@ < 128,
{
    let from_keys = actions_for_keys(held_keys);
    let pend = pending.pressed_since_tick;
    // Only the seven action bits of the pending set are carried over.
    let bits = from_keys.bits() | (pend.bits() & 127u8);
    let held = Actions::from_bits(bits);
    proof {
        assert forall|a: Action|
            held.has(a) == (held_keys@.contains(a.key()) || pend.has(a)) by {
            assert(from_keys.has(a) == held_keys@.contains(a.key()));
            lemma_binding_and_order(a, a);
            let x = from_keys@;
            let y = pend@;
            let i = a.bit_index();
            assert(((x | (y & 127u8)) & (1u8 << i) != 0) == (x & (1u8 << i) != 0 || y & (1u8
                << i) != 0)) by (bit_vector)
                requires
                    i < 7,
            ;
        }
        let x = from_keys@;
        let y = pend@;
        assert(x | (y & 127u8) < 128) by (bit_vector)
            requires
                x < 128,
        ;
    }
    pending.pressed_since_tick = Actions::none();
    tick_input.advance(held);
}

/// Once an action is pending it stays pending through every later frame
/// before the tick.
proof fn lemma_pending_stays(pendings: Seq<Actions>, frames: Seq<Seq<Key>>, a: Action, j: int, k: int)
    requires
        pendings.len() == frames.len() + 1,
        forall|i: int, b: Action|
            1 <= i <= frames.len() ==> #[trigger] pendings[i].has(b) == (pendings[i - 1].has(b)
                || frames[i - 1].contains(b.key())),
        0 <= j < k <= frames.len(),
        frames[j].contains(a.key()),
    ensures
        pendings[k].has(a),
    decreases k,
{
    assert(pendings[k].has(a) == (pendings[k - 1].has(a) || frames[k - 1].contains(a.key())));
    if k > j + 1 {
        lemma_pending_stays(pendings, frames, a, j, k - 1);
    }
}

/// A tap shorter than one tick still registers: over any number of rendered
/// frames between two ticks, each recorded by [`accumulate_input`]
/// (`pendings[i]` is the pending set before frame `i`, `frames[i]` the keys
/// newly pressed in it), if the action's key was pressed in any of them,
/// the action is held during the next tick as [`sample_tick_input`]
/// computes it, whether or not its key is still down; and it is newly
/// pressed there unless it was held the tick before.
pub proof fn lemma_short_tap_registers(
    pendings: Seq<Actions>,
    frames: Seq<Seq<Key>>,
    held_keys: Seq<Key>,
    before: TickInput,
    after: TickInput,
    a: Action,
    j: int,
)
    requires
        pendings.len() == frames.len() + 1,
        forall|i: int, b: Action|
            1 <= i <= frames.len() ==> #[trigger] pendings[i].has(b) == (pendings[i - 1].has(b)
                || frames[i - 1].contains(b.key())),
        forall|b: Action|
            #[trigger] after.held_now().has(b) == (held_keys.contains(b.key()) || pendings.last().has(
                b,
            )),
        after.held_before() == before.held_now(),
        0 <= j < frames.len(),
        frames[j].contains(a.key()),
    ensures
        after.is_pressed(a),
        !before.is_pressed(a) ==> after.is_just_pressed(a),
{
    lemma_pending_stays(pendings, frames, a, j, frames.len() as int);
    assert(pendings.last() == pendings[frames.len() as int]);
    assert(after.held_now().has(a));
}

} // verus!

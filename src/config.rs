use vstd::prelude::*;
use indexmap::IndexMap;

verus! {

#[verifier::external_type_specification]
#[verifier::external_body]
#[verifier::reject_recursive_types(K)]
#[verifier::reject_recursive_types(V)]
#[verifier::reject_recursive_types(S)]
pub struct ExIndexMap<K, V, S>(IndexMap<K, V, S>);

/// Entries of a binding map, in the map's order.
pub uninterp spec fn bindings_of(m: IndexMap<KeyPattern, Action>) -> Seq<(KeyPattern, Action)>;

/// No two entries share a key.
pub open spec fn keys_unique(s: Seq<(KeyPattern, Action)>) -> bool {
    forall|i: int, j: int| 0 <= i < j < s.len() ==> (#[trigger] s[i]).0 != (#[trigger] s[j]).0
}

/// Relies on `IndexMap::new`: the map starts without entries.
#[verifier::external_body]
fn bindings_new() -> (r: IndexMap<KeyPattern, Action>)
    ensures
        bindings_of(r) == Seq::<(KeyPattern, Action)>::empty(),
{
    IndexMap::new()
}

/// Relies on `IndexMap::insert`: an entry whose key equals `key` keeps its
/// place and takes `value`; without one, the pair goes last. Keys stay
/// unique.
#[verifier::external_body]
fn bindings_insert(m: &mut IndexMap<KeyPattern, Action>, key: KeyPattern, value: Action)
    ensures
        keys_unique(bindings_of(*old(m))) ==> keys_unique(bindings_of(*final(m))),
        (forall|i: int|
            0 <= i < bindings_of(*old(m)).len() ==> (#[trigger] bindings_of(*old(m))[i]).0 != key)
            ==> bindings_of(*final(m)) == bindings_of(*old(m)).push((key, value)),
        forall|i: int|
            0 <= i < bindings_of(*old(m)).len() && (#[trigger] bindings_of(*old(m))[i]).0 == key
                ==> bindings_of(*final(m)) == bindings_of(*old(m)).update(i, (key, value)),
{
    m.insert(key, value);
}

/// Key symbol of the Return key.
pub const KEY_RETURN: u32 = 0xff0d;

/// Key symbol of the `1` key.
pub const KEY_1: u32 = 0x0031;

/// Key symbol of the `2` key.
pub const KEY_2: u32 = 0x0032;

/// Key symbol of the `3` key.
pub const KEY_3: u32 = 0x0033;

/// Key symbol of the `a` key.
pub const KEY_A: u32 = 0x0061;

/// Key symbol of the `d` key.
pub const KEY_D: u32 = 0x0064;

/// Key symbol of the `q` key.
pub const KEY_Q: u32 = 0x0071;

/// Key symbol of the `w` key.
pub const KEY_W: u32 = 0x0077;

/// Compositor settings, built once at startup and handed to whoever needs
/// them. `tile_ratio_update_interval` is in thousandths.
#[derive(Debug)]
pub struct Config {
    pub workspaces: u8,
    pub keybindings: IndexMap<KeyPattern, Action>,
    pub gaps: (i32, i32),
    pub autostart: Vec<String>,
    pub tile_ratio_update_interval: u32,
}

/// Size and refresh rate requested for an output.
#[derive(Debug, Clone, Copy)]
pub struct OutputConfig((i32, i32), Option<u32>);

/// A modifier key.
#[derive(Debug, Clone, Copy, PartialEq, Eq, Structural)]
pub enum KeyModifier {
    Ctrl,
    Alt,
    Shift,
    Super,
}

/// Set of modifier keys held down.
#[derive(Debug, Clone, Copy, PartialEq, Eq, Hash, Structural)]
pub struct KeyModifiers {
    pub ctrl: bool,
    pub alt: bool,
    pub shift: bool,
    pub logo: bool,
}

/// A key combination that the compositor may handle.
#[derive(Debug, Clone, Copy, PartialEq, Eq, Hash, Structural)]
pub struct KeyPattern {
    pub modifiers: KeyModifiers,
    pub key: u32,
}

/// What a key binding does.
#[derive(Debug, Clone, PartialEq, Eq)]
pub enum Action {
    Quit,
    Close,
    Workspace(u8),
    MoveWindow(u8),
    MoveAndSwitch(u8),
    IncreaseTileRatio,
    DecreaseTileRatio,
    Spawn(String),
}

/// Modifiers listed one by one, as a configuration writes them.
pub struct KeyModifiersDef(pub Vec<KeyModifier>);

/// The set of modifiers named in `l`.
pub open spec fn modifiers_of(l: Seq<KeyModifier>) -> KeyModifiers {
    KeyModifiers {
        ctrl: l.contains(KeyModifier::Ctrl),
        alt: l.contains(KeyModifier::Alt),
        shift: l.contains(KeyModifier::Shift),
        logo: l.contains(KeyModifier::Super),
    }
}

impl KeyModifiers {
    /// The set with `m` added.
    pub open spec fn with(self, m: KeyModifier) -> KeyModifiers {
        match m {
            KeyModifier::Ctrl => KeyModifiers { ctrl: true, ..self },
            KeyModifier::Alt => KeyModifiers { alt: true, ..self },
            KeyModifier::Shift => KeyModifiers { shift: true, ..self },
            KeyModifier::Super => KeyModifiers { logo: true, ..self },
        }
    }

    /// The modifier set with exactly these keys held.
    pub fn new(ctrl: bool, alt: bool, shift: bool, logo: bool) -> (r: Self)
        ensures
            r == (KeyModifiers { ctrl, alt, shift, logo }),
    {
        KeyModifiers { ctrl, alt, shift, logo }
    }

    /// Adds `rhs` to the set.
    pub fn add_assign(&mut self, rhs: KeyModifier)
        ensures
            *final(self) == old(self).with(rhs),
    {
        match rhs {
            KeyModifier::Ctrl => self.ctrl = true,
            KeyModifier::Alt => self.alt = true,
            KeyModifier::Shift => self.shift = true,
            KeyModifier::Super => self.logo = true,
        };
    }

    /// Whether the set is exactly the held state given key by key.
    pub fn matches_state(&self, ctrl: bool, alt: bool, shift: bool, logo: bool) -> (r: bool)
        ensures
            r == (self.ctrl == ctrl && self.alt == alt && self.shift == shift && self.logo == logo),
    {
        self.ctrl == ctrl && self.alt == alt && self.shift == shift && self.logo == logo
    }
}

impl From<KeyModifiersDef> for KeyModifiers {
    fn from(src: KeyModifiersDef) -> (r: Self) {
        let v = src.0;
        let mut r = KeyModifiers { ctrl: false, alt: false, shift: false, logo: false };
        let mut i: usize = 0;
        while i < v.len()
            invariant
                i <= v@.len(),
                r == modifiers_of(v@.subrange(0, i as int)),
            decreases v@.len() - i,
        {
            let ghost pre = v@.subrange(0, i as int);
            r.add_assign(v[i]);
            proof {
                let post = v@.subrange(0, i + 1);
                assert(post =~= pre.push(v@[i as int]));
                lemma_push_contains_modifier(pre, v@[i as int]);
            }
            i = i + 1;
        }
        proof {
            assert(v@.subrange(0, i as int) =~= v@);
        }
        r
    }
}

impl vstd::std_specs::convert::FromSpecImpl<KeyModifiersDef> for KeyModifiers {
    open spec fn obeys_from_spec() -> bool {
        true
    }

    open spec fn from_spec(v: KeyModifiersDef) -> KeyModifiers {
        modifiers_of(v.0@)
    }
}

/// Pattern of `key` with the listed modifiers held.
pub open spec fn pattern(ctrl: bool, shift: bool, key: u32) -> KeyPattern {
    KeyPattern { modifiers: KeyModifiers { ctrl, alt: false, shift, logo: false }, key }
}

fn binding(ctrl: bool, shift: bool, key: u32) -> (r: KeyPattern)
    ensures
        r == pattern(ctrl, shift, key),
{
    let mut l: Vec<KeyModifier> = Vec::new();
    if ctrl {
        l.push(KeyModifier::Ctrl);
    }
    if shift {
        l.push(KeyModifier::Shift);
    }
    let m = KeyModifiers::from(KeyModifiersDef(l));
    proof {
        if ctrl {
            assert(l@[0] == KeyModifier::Ctrl);
        }
        if shift {
            assert(l@[l@.len() - 1] == KeyModifier::Shift);
        }
    }
    KeyPattern { modifiers: m, key }
}

/// The default settings: three workspaces, gaps of 5 on every side, a ratio
/// step of 0.05, and these bindings, in this order: Ctrl+Return spawns a
/// terminal, Ctrl+Shift+q quits, Ctrl+w closes, Ctrl+a and Ctrl+d shrink and
/// grow the tile ratio, Ctrl+1 to Ctrl+3 switch workspace.
pub fn generate_config() -> (r: Config)
    ensures
        r.workspaces == 3,
        r.gaps == (5i32, 5i32),
        r.autostart@.len() == 0,
        r.tile_ratio_update_interval == 50,
        keys_unique(bindings_of(r.keybindings)),
        bindings_of(r.keybindings).map_values(|b: (KeyPattern, Action)| b.0) == seq![
            pattern(true, false, KEY_RETURN),
            pattern(true, true, KEY_Q),
            pattern(true, false, KEY_W),
            pattern(true, false, KEY_A),
            pattern(true, false, KEY_D),
            pattern(true, false, KEY_1),
            pattern(true, false, KEY_2),
            pattern(true, false, KEY_3),
        ],
        bindings_of(r.keybindings)[0].1 is Spawn && bindings_of(r.keybindings)[0].1->Spawn_0@ == "foot"@,
        bindings_of(r.keybindings)[1].1 == Action::Quit,
        bindings_of(r.keybindings)[2].1 == Action::Close,
        bindings_of(r.keybindings)[3].1 == Action::DecreaseTileRatio,
        bindings_of(r.keybindings)[4].1 == Action::IncreaseTileRatio,
        bindings_of(r.keybindings)[5].1 == Action::Workspace(0),
        bindings_of(r.keybindings)[6].1 == Action::Workspace(1),
        bindings_of(r.keybindings)[7].1 == Action::Workspace(2),
{
    let mut keybindings = bindings_new();
    let spawn_key = binding(true, false, KEY_RETURN);
    let quit_key = binding(true, true, KEY_Q);
    let close_key = binding(true, false, KEY_W);
    let shrink_key = binding(true, false, KEY_A);
    let grow_key = binding(true, false, KEY_D);
    let first_key = binding(true, false, KEY_1);
    let second_key = binding(true, false, KEY_2);
    let third_key = binding(true, false, KEY_3);
    bindings_insert(&mut keybindings, spawn_key, Action::Spawn(String::from_str("foot")));
    bindings_insert(&mut keybindings, quit_key, Action::Quit);
    bindings_insert(&mut keybindings, close_key, Action::Close);
    bindings_insert(&mut keybindings, shrink_key, Action::DecreaseTileRatio);
    bindings_insert(&mut keybindings, grow_key, Action::IncreaseTileRatio);
    bindings_insert(&mut keybindings, first_key, Action::Workspace(0));
    bindings_insert(&mut keybindings, second_key, Action::Workspace(1));
    bindings_insert(&mut keybindings, third_key, Action::Workspace(2));
    proof {
        reveal_strlit("foot");
        assert(bindings_of(keybindings).map_values(|b: (KeyPattern, Action)| b.0) =~= seq![
            pattern(true, false, KEY_RETURN),
            pattern(true, true, KEY_Q),
            pattern(true, false, KEY_W),
            pattern(true, false, KEY_A),
            pattern(true, false, KEY_D),
            pattern(true, false, KEY_1),
            pattern(true, false, KEY_2),
            pattern(true, false, KEY_3),
        ]);
    }
    Config {
        workspaces: 3,
        keybindings,
        gaps: (5, 5),
        autostart: Vec::new(),
        tile_ratio_update_interval: 50,
    }
}

proof fn lemma_push_contains_modifier(s: Seq<KeyModifier>, m: KeyModifier)
    ensures
        forall|x: KeyModifier| #[trigger] s.push(m).contains(x) <==> (s.contains(x) || x == m),
{
    assert forall|x: KeyModifier| #[trigger] s.push(m).contains(x) <==> (s.contains(x) || x == m) by {
        if s.push(m).contains(x) {
            let k = choose|k: int| 0 <= k < s.push(m).len() && s.push(m)[k] == x;
            if k < s.len() {
                assert(s[k] == x);
            }
        }
        if s.contains(x) {
            let k = choose|k: int| 0 <= k < s.len() && s[k] == x;
            assert(s.push(m)[k] == x);
        }
        if x == m {
            assert(s.push(m)[s.len() as int] == x);
        }
    }
}

} // verus!

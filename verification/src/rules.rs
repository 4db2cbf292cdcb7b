//! The lowered configuration: which bindings apply in which application.

use crate::actions::{step_views, Step, StepView};
use crate::assoc::AssocMap;
use crate::combo::{Combo, ComboView, Modifier};
use crate::key::Key;
use crate::pattern::{language, regex_accepts};
use crate::text::{contains_text, lower_ascii, occurs_in, same_text, to_lower_ascii, views};
use regex::Regex;
use vstd::prelude::*;

verus! {

// === Data structures ===

/// Selects which application a rule applies to. With neither field set the rule
/// is global.
#[derive(Debug)]
pub struct AppMatcher {
    pub included: Option<Regex>,
    pub excluded: Option<Regex>,
}

/// A keymap: a set of trigger-combo bindings scoped to matching applications.
#[derive(Debug)]
pub struct KeymapRule {
    pub name: String,
    pub matcher: AppMatcher,
    pub bindings: AssocMap<Combo, Vec<Step>>,
}

/// A tap-hold rule: tap the key for its first target, hold it to act as the
/// modifier. Scoped to matching applications.
#[derive(Debug)]
pub struct MultipurposeRule {
    pub matcher: AppMatcher,
    pub map: AssocMap<Key, (Key, Modifier)>,
}

/// The fully lowered configuration the engine runs on.
#[derive(Debug)]
pub struct Config {
    pub modmap: AssocMap<Key, Key>,
    pub multipurpose: Vec<MultipurposeRule>,
    pub keymaps: Vec<KeymapRule>,
    /// Apps that bypass all remapping: keys are forwarded raw. Case-insensitive
    /// substring match against the window class (Linux) or process name
    /// (Windows).
    pub pass_through: Vec<String>,
}

/// What an [`AppMatcher`] holds: the names its patterns accept.
pub struct MatcherView {
    pub included: Option<Set<Seq<char>>>,
    pub excluded: Option<Set<Seq<char>>>,
}

/// What a [`KeymapRule`] says.
pub struct KeymapView {
    pub name: Seq<char>,
    pub matcher: MatcherView,
    pub bindings: Map<ComboView, Seq<StepView>>,
}

/// What a [`MultipurposeRule`] says.
pub struct MultipurposeView {
    pub matcher: MatcherView,
    pub map: Map<Key, (Key, Modifier)>,
}

/// What a [`Config`] says.
pub struct ConfigView {
    pub modmap: Map<Key, Key>,
    pub multipurpose: Seq<MultipurposeView>,
    pub keymaps: Seq<KeymapView>,
    pub pass_through: Seq<Seq<char>>,
}

// === Models ===

/// What an optional pattern accepts.
pub open spec fn language_of(pattern: Option<Regex>) -> Option<Set<Seq<char>>> {
    match pattern {
        Some(re) => Some(language(re)),
        None => None,
    }
}

impl View for AppMatcher {
    type V = MatcherView;

    open spec fn view(&self) -> MatcherView {
        MatcherView { included: language_of(self.included), excluded: language_of(self.excluded) }
    }
}

/// What a table of bindings says.
pub open spec fn binding_views(m: Map<ComboView, Vec<Step>>) -> Map<ComboView, Seq<StepView>> {
    m.map_values(|steps: Vec<Step>| step_views(steps@))
}

impl View for KeymapRule {
    type V = KeymapView;

    open spec fn view(&self) -> KeymapView {
        KeymapView {
            name: self.name@,
            matcher: self.matcher@,
            bindings: binding_views(self.bindings@),
        }
    }
}

impl View for MultipurposeRule {
    type V = MultipurposeView;

    open spec fn view(&self) -> MultipurposeView {
        MultipurposeView { matcher: self.matcher@, map: self.map@ }
    }
}

/// What a list of keymaps says.
pub open spec fn keymap_views(rules: Seq<KeymapRule>) -> Seq<KeymapView> {
    rules.map_values(|r: KeymapRule| r@)
}

/// What a list of tap-hold rules says.
pub open spec fn multipurpose_views(rules: Seq<MultipurposeRule>) -> Seq<MultipurposeView> {
    rules.map_values(|r: MultipurposeRule| r@)
}

impl View for Config {
    type V = ConfigView;

    open spec fn view(&self) -> ConfigView {
        ConfigView {
            modmap: self.modmap@,
            multipurpose: multipurpose_views(self.multipurpose@),
            keymaps: keymap_views(self.keymaps@),
            pass_through: views(self.pass_through@),
        }
    }
}

impl MatcherView {
    /// A rule with this matcher applies in `app`: the included-names pattern, if there
    /// is one, accepts it, and the excluded-names pattern, if there is one, does not.
    pub open spec fn applies(self, app: Seq<char>) -> bool {
        &&& self.included matches Some(names) ==> names.contains(app)
        &&& self.excluded matches Some(names) ==> !names.contains(app)
    }
}

/// The tap and hold meanings of a key: those of the first rule that applies and
/// lists the key.
pub open spec fn tap_hold_of(rules: Seq<MultipurposeView>, app: Seq<char>, raw: Key) -> Option<
    (Key, Modifier),
>
    decreases rules.len(),
{
    if rules.len() == 0 {
        None
    } else if rules[0].matcher.applies(app) && rules[0].map.contains_key(raw) {
        Some(rules[0].map[raw])
    } else {
        tap_hold_of(rules.drop_first(), app, raw)
    }
}

/// The steps bound to a combo: those of the first keymap that applies and binds
/// it.
pub open spec fn binding_of(keymaps: Seq<KeymapView>, app: Seq<char>, combo: ComboView) -> Option<
    Seq<StepView>,
>
    decreases keymaps.len(),
{
    if keymaps.len() == 0 {
        None
    } else if keymaps[0].matcher.applies(app) && keymaps[0].bindings.contains_key(combo) {
        Some(keymaps[0].bindings[combo])
    } else {
        binding_of(keymaps.drop_first(), app, combo)
    }
}

/// What a key stands for after the modmap.
pub open spec fn mapped(modmap: Map<Key, Key>, raw: Key) -> Key {
    if modmap.contains_key(raw) {
        modmap[raw]
    } else {
        raw
    }
}

/// Window identifiers that capture the keyboard for a guest or remote session,
/// so all keys must reach them raw (a nested remapper inside the guest does its
/// own mapping), and screen lockers and login greeters, whose password field
/// must stay unmodified. The set differs per OS because the name that is matched
/// differs: on Linux the window class, on Windows the stem of the process name.
pub open spec fn builtin_classes(os: Seq<char>) -> Seq<Seq<char>> {
    if os == "linux"@ {
        seq![
            "gnome-boxes"@,
            "looking-glass"@,
            "qemu"@,
            "remote-viewer"@,
            "spicy"@,
            "virt-manager"@,
            "virt-viewer"@,
            "virtualbox"@,
            "vmware"@,
            "light-locker"@,
            "xscreensaver"@,
            "gnome-screensaver"@,
            "xsecurelock"@,
            "slock"@,
            "i3lock"@,
            "kscreenlocker"@,
            "lightdm-greeter"@,
            "gdm"@,
            "sddm-greeter"@,
        ]
    } else if os == "windows"@ {
        seq![
            "qemu"@,
            "remote-viewer"@,
            "virt-viewer"@,
            "virtualbox"@,
            "vmconnect"@,
            "vmware"@,
        ]
    } else {
        Seq::empty()
    }
}

/// One of `classes`, lowered, stands somewhere in `app`, lowered.
pub open spec fn any_class_in(classes: Seq<Seq<char>>, app: Seq<char>) -> bool {
    exists|i: int|
        0 <= i < classes.len() && occurs_in(lower_ascii(app), #[trigger] lower_ascii(classes[i]))
}

/// Keys reach `app` raw.
pub open spec fn passes_through(config: ConfigView, os: Seq<char>, app: Seq<char>) -> bool {
    ||| exists|i: int|
        0 <= i < builtin_classes(os).len() && #[trigger] occurs_in(
            lower_ascii(app),
            builtin_classes(os)[i],
        )
    ||| any_class_in(config.pass_through, app)
}

// === AppMatcher ===

impl Default for AppMatcher {
    fn default() -> (r: AppMatcher)
        ensures
            r@ == (MatcherView { included: None, excluded: None }),
    {
        AppMatcher { included: None, excluded: None }
    }
}

impl AppMatcher {
    /// Whether this matcher applies to the given application name.
    pub fn matches(&self, app: &str) -> (r: bool)
        ensures
            r == self@.applies(app@),
    {
        if let Some(included) = &self.included {
            if !regex_accepts(included, app) {
                return false;
            }
        }
        if let Some(excluded) = &self.excluded {
            if regex_accepts(excluded, app) {
                return false;
            }
        }
        true
    }
}

// === Config ===

impl Default for Config {
    fn default() -> (r: Config)
        ensures
            r@ == (ConfigView {
                modmap: Map::empty(),
                multipurpose: Seq::empty(),
                keymaps: Seq::empty(),
                pass_through: Seq::empty(),
            }),
    {
        let r = Config {
            modmap: AssocMap::new(),
            multipurpose: Vec::new(),
            keymaps: Vec::new(),
            pass_through: Vec::new(),
        };
        assert(r@.multipurpose =~= Seq::empty());
        assert(r@.keymaps =~= Seq::empty());
        assert(r@.pass_through =~= Seq::empty());
        r
    }
}

impl Config {
    /// What a key stands for after the modmap.
    pub fn map_key(&self, raw: Key) -> (r: Key)
        ensures
            r == mapped(self@.modmap, raw),
    {
        match self.modmap.get(&raw) {
            Some(key) => *key,
            None => raw,
        }
    }

    /// The tap and hold meanings of `raw` in `app`.
    pub fn multipurpose_lookup(&self, app: &str, raw: Key) -> (r: Option<(Key, Modifier)>)
        ensures
            r == tap_hold_of(self@.multipurpose, app@, raw),
    {
        let ghost all = self@.multipurpose;
        let mut i: usize = 0;
        assert(all.skip(0) =~= all);
        while i < self.multipurpose.len()
            invariant
                i <= self.multipurpose@.len(),
                all == self@.multipurpose,
                tap_hold_of(all, app@, raw) == tap_hold_of(all.skip(i as int), app@, raw),
            decreases self.multipurpose@.len() - i,
        {
            let rule = &self.multipurpose[i];
            assert(all.skip(i as int)[0] == rule@);
            assert(all.skip(i as int).drop_first() =~= all.skip(i + 1));
            if rule.matcher.matches(app) {
                if let Some(target) = rule.map.get(&raw) {
                    return Some(*target);
                }
            }
            i = i + 1;
        }
        None
    }

    /// The steps bound to `combo` in `app`.
    pub fn lookup(&self, app: &str, combo: &Combo) -> (r: Option<&Vec<Step>>)
        ensures
            match r {
                Some(steps) => binding_of(self@.keymaps, app@, combo@) == Some(step_views(steps@)),
                None => binding_of(self@.keymaps, app@, combo@) is None,
            },
    {
        let ghost all = self@.keymaps;
        let mut i: usize = 0;
        assert(all.skip(0) =~= all);
        while i < self.keymaps.len()
            invariant
                i <= self.keymaps@.len(),
                all == self@.keymaps,
                binding_of(all, app@, combo@) == binding_of(all.skip(i as int), app@, combo@),
            decreases self.keymaps@.len() - i,
        {
            let rule = &self.keymaps[i];
            assert(all.skip(i as int)[0] == rule@);
            assert(all.skip(i as int).drop_first() =~= all.skip(i + 1));
            if rule.matcher.matches(app) {
                if let Some(steps) = rule.bindings.get(combo) {
                    return Some(steps);
                }
            }
            i = i + 1;
        }
        None
    }

    /// Whether all keys should be forwarded raw for the given app.
    pub fn passes_through(&self, os: &str, app: &str) -> (r: bool)
        ensures
            r == passes_through(self@, os@, app@),
    {
        let lower = to_lower_ascii(app);
        let classes = builtin_class_list(os);
        let mut i: usize = 0;
        while i < classes.len()
            invariant
                i <= classes@.len(),
                lower@ == lower_ascii(app@),
                classes@.map_values(|c: &'static str| c@) == builtin_classes(os@),
                forall|j: int|
                    0 <= j < i ==> !(#[trigger] occurs_in(lower@, builtin_classes(os@)[j])),
            decreases classes@.len() - i,
        {
            assert(builtin_classes(os@)[i as int] == classes@[i as int]@);
            if contains_text(lower.as_str(), classes[i]) {
                return true;
            }
            i = i + 1;
        }
        assert(builtin_classes(os@).len() == classes@.len());
        let mut k: usize = 0;
        while k < self.pass_through.len()
            invariant
                k <= self.pass_through@.len(),
                lower@ == lower_ascii(app@),
                forall|j: int|
                    0 <= j < k ==> !occurs_in(
                        lower@,
                        #[trigger] lower_ascii(self@.pass_through[j]),
                    ),
            decreases self.pass_through@.len() - k,
        {
            assert(self@.pass_through[k as int] == self.pass_through@[k as int]@);
            let class = to_lower_ascii(self.pass_through[k].as_str());
            if contains_text(lower.as_str(), class.as_str()) {
                return true;
            }
            k = k + 1;
        }
        false
    }
}

fn builtin_class_list(os: &str) -> (r: Vec<&'static str>)
    ensures
        r@.map_values(|c: &'static str| c@) == builtin_classes(os@),
{
    if same_text(os, "linux") {
        let r: Vec<&'static str> = vec![
            "gnome-boxes",
            "looking-glass",
            "qemu",
            "remote-viewer",
            "spicy",
            "virt-manager",
            "virt-viewer",
            "virtualbox",
            "vmware",
            "light-locker",
            "xscreensaver",
            "gnome-screensaver",
            "xsecurelock",
            "slock",
            "i3lock",
            "kscreenlocker",
            "lightdm-greeter",
            "gdm",
            "sddm-greeter",
        ];
        assert(r@.map_values(|c: &'static str| c@) =~= builtin_classes(os@));
        r
    } else if same_text(os, "windows") {
        let r: Vec<&'static str> = vec![
            "qemu",
            "remote-viewer",
            "virt-viewer",
            "virtualbox",
            "vmconnect",
            "vmware",
        ];
        assert(r@.map_values(|c: &'static str| c@) =~= builtin_classes(os@));
        r
    } else {
        let r: Vec<&'static str> = Vec::new();
        assert(r@.map_values(|c: &'static str| c@) =~= builtin_classes(os@));
        r
    }
}

} // verus!

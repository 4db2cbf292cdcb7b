//! Modifiers, sets of them, and key chords.

use crate::assoc::Atom;
use crate::key::{key_named, Key};
use crate::text::{debug_quoted, owned, quoted, same_text, split_on, split_text, views};
use vstd::prelude::*;

verus! {

// === Data structures ===

/// A modifier that can qualify a [`Combo`]. `Hyper` is synthetic: it is tracked
/// internally (typically `CapsLock` remapped through the modmap) and is never
/// emitted to the OS.
#[derive(Clone, Copy, Debug, Eq, Hash, Ord, PartialEq, PartialOrd, Structural)]
pub enum Modifier {
    Alt,
    Control,
    Hyper,
    Shift,
    Super,
}

/// A set of modifiers.
#[derive(Clone, Copy, Debug, Eq, Hash, PartialEq, Structural)]
pub struct ModifierSet {
    pub alt: bool,
    pub control: bool,
    pub hyper: bool,
    pub shift: bool,
    pub super_: bool,
}

/// A key chord: a set of modifiers plus a single triggering key.
#[derive(Clone, Copy, Debug, Eq, Hash, PartialEq, Structural)]
pub struct Combo {
    pub modifiers: ModifierSet,
    pub key: Key,
}

/// What a [`Combo`] is: its modifiers as a set, and its key.
pub struct ComboView {
    pub modifiers: Set<Modifier>,
    pub key: Key,
}

/// Why a text is not a combo. Each variant carries the whole text; the last two
/// also the token that is at fault.
#[derive(Debug)]
pub enum ComboError {
    MissingKey { spec: String },
    UnknownModifier { spec: String, token: String },
    UnknownKey { spec: String, token: String },
}

/// What a [`ComboError`] says.
pub enum ComboFault {
    MissingKey { spec: Seq<char> },
    UnknownModifier { spec: Seq<char>, token: Seq<char> },
    UnknownKey { spec: Seq<char>, token: Seq<char> },
}

// === Modifier ===

/// The modifier a combo-prefix token names.
pub open spec fn modifier_named(token: Seq<char>) -> Option<Modifier> {
    if token == "C"@ {
        Some(Modifier::Control)
    } else if token == "M"@ {
        Some(Modifier::Alt)
    } else if token == "S"@ {
        Some(Modifier::Shift)
    } else if token == "s"@ {
        Some(Modifier::Super)
    } else if token == "Hyper"@ {
        Some(Modifier::Hyper)
    } else {
        None
    }
}

impl Modifier {
    /// The key the OS sees for this modifier; none for `Hyper`.
    pub open spec fn spec_emit_key(self) -> Option<Key> {
        match self {
            Modifier::Alt => Some(Key::LeftAlt),
            Modifier::Control => Some(Key::LeftCtrl),
            Modifier::Hyper => None,
            Modifier::Shift => Some(Key::LeftShift),
            Modifier::Super => Some(Key::LeftMeta),
        }
    }

    /// Parse a combo-prefix token. The modifier prefixes are the Emacs-style
    /// letters `C` (Control), `M` (Alt), `S` (Shift), `s` (Super), plus `Hyper`.
    /// All are case-sensitive (`S` and `s` differ).
    pub fn parse(token: &str) -> (r: Option<Modifier>)
        ensures
            r == modifier_named(token@),
    {
        if same_text(token, "C") {
            Some(Modifier::Control)
        } else if same_text(token, "M") {
            Some(Modifier::Alt)
        } else if same_text(token, "S") {
            Some(Modifier::Shift)
        } else if same_text(token, "s") {
            Some(Modifier::Super)
        } else if same_text(token, "Hyper") {
            Some(Modifier::Hyper)
        } else {
            None
        }
    }

    /// The concrete (left-hand) key the OS should see for this modifier, or
    /// `None` for `Hyper`, which is internal-only and never emitted.
    pub fn emit_key(self) -> (r: Option<Key>)
        ensures
            r == self.spec_emit_key(),
    {
        match self {
            Modifier::Alt => Some(Key::LeftAlt),
            Modifier::Control => Some(Key::LeftCtrl),
            Modifier::Hyper => None,
            Modifier::Shift => Some(Key::LeftShift),
            Modifier::Super => Some(Key::LeftMeta),
        }
    }
}

// === ModifierSet ===

/// `m` alone if the set holds it, else nothing.
pub open spec fn one_if(s: Set<Modifier>, m: Modifier) -> Seq<Modifier> {
    if s.contains(m) {
        seq![m]
    } else {
        Seq::empty()
    }
}

/// The members of a set in their fixed order: Alt, Control, Hyper, Shift, Super.
pub open spec fn in_order(s: Set<Modifier>) -> Seq<Modifier> {
    one_if(s, Modifier::Alt) + one_if(s, Modifier::Control) + one_if(s, Modifier::Hyper) + one_if(
        s,
        Modifier::Shift,
    ) + one_if(s, Modifier::Super)
}

impl View for ModifierSet {
    type V = Set<Modifier>;

    open spec fn view(&self) -> Set<Modifier> {
        Set::new(|m: Modifier| self.holds(m))
    }
}

impl ModifierSet {
    /// Membership.
    pub open spec fn holds(&self, m: Modifier) -> bool {
        match m {
            Modifier::Alt => self.alt,
            Modifier::Control => self.control,
            Modifier::Hyper => self.hyper,
            Modifier::Shift => self.shift,
            Modifier::Super => self.super_,
        }
    }

    /// The empty set.
    pub fn new() -> (r: ModifierSet)
        ensures
            r@ == Set::<Modifier>::empty(),
    {
        let r = ModifierSet { alt: false, control: false, hyper: false, shift: false, super_: false };
        assert(r@ =~= Set::<Modifier>::empty());
        r
    }

    /// Whether the set holds nothing.
    pub fn is_empty(&self) -> (r: bool)
        ensures
            r == (self@ == Set::<Modifier>::empty()),
    {
        let r = !(self.alt || self.control || self.hyper || self.shift || self.super_);
        proof {
            if r {
                assert(self@ =~= Set::<Modifier>::empty());
            } else {
                assert(self@.contains(Modifier::Alt) || self@.contains(Modifier::Control)
                    || self@.contains(Modifier::Hyper) || self@.contains(Modifier::Shift)
                    || self@.contains(Modifier::Super));
            }
        }
        r
    }

    /// Membership.
    pub fn contains(&self, m: &Modifier) -> (r: bool)
        ensures
            r == self@.contains(*m),
    {
        match *m {
            Modifier::Alt => self.alt,
            Modifier::Control => self.control,
            Modifier::Hyper => self.hyper,
            Modifier::Shift => self.shift,
            Modifier::Super => self.super_,
        }
    }

    fn set(&mut self, m: Modifier, value: bool)
        ensures
            final(self)@ == if value {
                old(self)@.insert(m)
            } else {
                old(self)@.remove(m)
            },
    {
        match m {
            Modifier::Alt => self.alt = value,
            Modifier::Control => self.control = value,
            Modifier::Hyper => self.hyper = value,
            Modifier::Shift => self.shift = value,
            Modifier::Super => self.super_ = value,
        }
        assert(self@ =~= if value {
            old(self)@.insert(m)
        } else {
            old(self)@.remove(m)
        });
    }

    /// Puts `m` into the set.
    pub fn insert(&mut self, m: Modifier)
        ensures
            final(self)@ == old(self)@.insert(m),
    {
        self.set(m, true);
    }

    /// Takes `m` out of the set.
    pub fn remove(&mut self, m: Modifier)
        ensures
            final(self)@ == old(self)@.remove(m),
    {
        self.set(m, false);
    }

    /// What is in this set and not in `other`.
    pub fn difference(&self, other: &ModifierSet) -> (r: ModifierSet)
        ensures
            r@ == self@.difference(other@),
    {
        let r = ModifierSet {
            alt: self.alt && !other.alt,
            control: self.control && !other.control,
            hyper: self.hyper && !other.hyper,
            shift: self.shift && !other.shift,
            super_: self.super_ && !other.super_,
        };
        assert(r@ =~= self@.difference(other@));
        r
    }

    /// The members in their fixed order: Alt, Control, Hyper, Shift, Super.
    pub fn to_vec(&self) -> (r: Vec<Modifier>)
        ensures
            r@ == in_order(self@),
    {
        let mut out: Vec<Modifier> = Vec::new();
        if self.alt {
            out.push(Modifier::Alt);
        }
        if self.control {
            out.push(Modifier::Control);
        }
        if self.hyper {
            out.push(Modifier::Hyper);
        }
        if self.shift {
            out.push(Modifier::Shift);
        }
        if self.super_ {
            out.push(Modifier::Super);
        }
        assert(out@ =~= in_order(self@));
        out
    }
}

/// Two sets with the same members are the same set of flags.
pub proof fn lemma_same_members(a: ModifierSet, b: ModifierSet)
    requires
        a@ == b@,
    ensures
        a == b,
{
    assert(a@.contains(Modifier::Alt) == a.alt);
    assert(b@.contains(Modifier::Alt) == b.alt);
    assert(a@.contains(Modifier::Control) == a.control);
    assert(b@.contains(Modifier::Control) == b.control);
    assert(a@.contains(Modifier::Hyper) == a.hyper);
    assert(b@.contains(Modifier::Hyper) == b.hyper);
    assert(a@.contains(Modifier::Shift) == a.shift);
    assert(b@.contains(Modifier::Shift) == b.shift);
    assert(a@.contains(Modifier::Super) == a.super_);
    assert(b@.contains(Modifier::Super) == b.super_);
}

// === Combo ===

impl View for Combo {
    type V = ComboView;

    open spec fn view(&self) -> ComboView {
        ComboView { modifiers: self.modifiers@, key: self.key }
    }
}

impl View for ComboError {
    type V = ComboFault;

    open spec fn view(&self) -> ComboFault {
        match *self {
            ComboError::MissingKey { spec } => ComboFault::MissingKey { spec: spec@ },
            ComboError::UnknownModifier { spec, token } => ComboFault::UnknownModifier {
                spec: spec@,
                token: token@,
            },
            ComboError::UnknownKey { spec, token } => ComboFault::UnknownKey {
                spec: spec@,
                token: token@,
            },
        }
    }
}

/// The modifiers a list of prefix tokens names, or the first token that names
/// none.
pub open spec fn modifiers_of(tokens: Seq<Seq<char>>) -> Result<Set<Modifier>, Seq<char>>
    decreases tokens.len(),
{
    if tokens.len() == 0 {
        Ok(Set::empty())
    } else {
        match modifiers_of(tokens.drop_last()) {
            Err(token) => Err(token),
            Ok(set) => match modifier_named(tokens.last()) {
                Some(m) => Ok(set.insert(m)),
                None => Err(tokens.last()),
            },
        }
    }
}

/// What a combo text means: `+` joins the tokens, every token but the last names
/// a modifier, and the last names the key.
pub open spec fn combo_of(spec: Seq<char>) -> Result<ComboView, ComboFault> {
    let parts = split_on(spec, '+');
    if parts.last().len() == 0 {
        Err(ComboFault::MissingKey { spec })
    } else {
        match modifiers_of(parts.drop_last()) {
            Err(token) => Err(ComboFault::UnknownModifier { spec, token }),
            Ok(modifiers) => match key_named(parts.last()) {
                None => Err(ComboFault::UnknownKey { spec, token: parts.last() }),
                Some(key) => Ok(ComboView { modifiers, key }),
            },
        }
    }
}

impl Combo {
    /// Parse a combo string such as `C+M+s+S+a` or `Hyper+left` or a bare key
    /// like `home`. Tokens are `+`-separated; every token but the last is a
    /// modifier, the last is the key.
    pub fn parse(spec: &str) -> (r: Result<Combo, ComboError>)
        ensures
            r matches Ok(combo) ==> combo_of(spec@) == Ok::<ComboView, ComboFault>(combo@),
            r matches Err(e) ==> combo_of(spec@) == Err::<ComboView, ComboFault>(e@),
    {
        let parts = split_text(spec, '+');
        proof {
            crate::text::lemma_split_on_nonempty(spec@, '+');
            assert(views(parts@).len() == parts@.len());
        }
        let last: usize = parts.len() - 1;
        assert(views(parts@).last() == parts@[last as int]@);
        if parts[last].as_str().is_empty() {
            return Err(ComboError::MissingKey { spec: owned(spec) });
        }
        let mut modifiers = ModifierSet::new();
        let ghost tokens = views(parts@).drop_last();
        let mut i: usize = 0;
        while i < last
            invariant
                i <= last,
                last == parts@.len() - 1,
                views(parts@) == split_on(spec@, '+'),
                tokens == views(parts@).drop_last(),
                views(parts@).last().len() != 0,
                modifiers_of(tokens.take(i as int)) == Ok::<Set<Modifier>, Seq<char>>(modifiers@),
            decreases last - i,
        {
            let token = parts[i].as_str();
            proof {
                assert(tokens.take(i + 1).drop_last() =~= tokens.take(i as int));
                assert(tokens.take(i + 1).last() == token@);
            }
            match Modifier::parse(token) {
                Some(m) => {
                    modifiers.insert(m);
                },
                None => {
                    proof {
                        lemma_bad_modifier(tokens, i as int);
                    }
                    return Err(
                        ComboError::UnknownModifier { spec: owned(spec), token: owned(token) },
                    );
                },
            }
            i = i + 1;
        }
        assert(tokens.take(last as int) =~= tokens);
        let token = parts[last].as_str();
        match Key::parse(token) {
            Some(key) => Ok(Combo { modifiers, key }),
            None => Err(ComboError::UnknownKey { spec: owned(spec), token: owned(token) }),
        }
    }
}

/// A token that names no modifier is the answer once the tokens before it are
/// fine.
proof fn lemma_bad_modifier(tokens: Seq<Seq<char>>, i: int)
    requires
        0 <= i < tokens.len(),
        modifiers_of(tokens.take(i)) is Ok,
        modifier_named(tokens[i]) is None,
    ensures
        modifiers_of(tokens) == Err::<Set<Modifier>, Seq<char>>(tokens[i]),
    decreases tokens.len(),
{
    if i == tokens.len() - 1 {
        assert(tokens.take(i) =~= tokens.drop_last());
    } else {
        assert(tokens.drop_last().take(i) =~= tokens.take(i));
        lemma_bad_modifier(tokens.drop_last(), i);
    }
}

impl ComboFault {
    /// The message that a user reads.
    pub open spec fn text(self) -> Seq<char> {
        match self {
            ComboFault::MissingKey { spec } => "invalid key combo "@ + debug_quoted(spec)
                + ": the key is missing. '+' joins modifiers to the key, e.g. `C+a` or `C+S+-`, or a bare key like `=`"@,
            ComboFault::UnknownModifier { spec, token } => "invalid key combo "@ + debug_quoted(
                spec,
            ) + ": unknown modifier "@ + debug_quoted(token)
                + " (expected C=Ctrl, M=Alt, S=Shift, s=Super, Hyper)"@,
            ComboFault::UnknownKey { spec, token } => "invalid key combo "@ + debug_quoted(spec)
                + ": unknown key "@ + debug_quoted(token)
                + ". Keys use their symbol or evdev name, e.g. `a`, `-`, `=`, `/`, `enter`, `space`, `f5`"@,
        }
    }
}

impl ComboError {
    /// The message that a user reads.
    pub fn message(&self) -> (r: String)
        ensures
            r@ == self@.text(),
    {
        let mut out = owned("invalid key combo ");
        match self {
            ComboError::MissingKey { spec } => {
                out.append(quoted(spec.as_str()).as_str());
                out.append(
                    ": the key is missing. '+' joins modifiers to the key, e.g. `C+a` or `C+S+-`, or a bare key like `=`",
                );
            },
            ComboError::UnknownModifier { spec, token } => {
                out.append(quoted(spec.as_str()).as_str());
                out.append(": unknown modifier ");
                out.append(quoted(token.as_str()).as_str());
                out.append(" (expected C=Ctrl, M=Alt, S=Shift, s=Super, Hyper)");
            },
            ComboError::UnknownKey { spec, token } => {
                out.append(quoted(spec.as_str()).as_str());
                out.append(": unknown key ");
                out.append(quoted(token.as_str()).as_str());
                out.append(
                    ". Keys use their symbol or evdev name, e.g. `a`, `-`, `=`, `/`, `enter`, `space`, `f5`",
                );
            },
        }
        out
    }
}

impl Atom for Combo {
    fn same(&self, other: &Combo) -> (r: bool) {
        proof {
            if self@ == other@ {
                lemma_same_members(self.modifiers, other.modifiers);
            }
        }
        *self == *other
    }
}

} // verus!

//! Configuration: lowering a document into the engine's runtime [`Config`].
//!
//! The on-disk schema uses no boolean literals (string values such as
//! `selection "clear"` stand in), so it reads the same under either KDL dialect.

use crate::actions::{
    step_views, Corner, CycleDirection, Scale, Side, Step, StepView, TileFraction, WindowAction,
    Workspace,
};
use crate::assoc::AssocMap;
use crate::combo::{combo_of, Combo, ComboError, ComboFault, ComboView, Modifier};
use crate::document::{
    kdl_nodes, lemma_node_children, node_views, property, read_kdl, Node, NodeView, Value,
    ValueView,
};
use crate::key::{key_named, Key};
use crate::pattern::{compile, fault_text, pattern_language};
use crate::rules::{
    binding_views, keymap_views, language_of, multipurpose_views, AppMatcher, Config, ConfigView,
    KeymapRule, KeymapView, MatcherView, MultipurposeRule, MultipurposeView,
};
use crate::text::{chars_of, debug_quoted, owned, quoted, same_text};
use regex::Regex;
use vstd::prelude::*;

verus! {

// === Errors ===

/// Why a text is no number of 32 bits.
#[derive(Clone, Copy, Debug, Eq, PartialEq, Structural)]
pub enum NumberFault {
    Empty,
    NotDigit,
    TooLarge,
}

/// Why a configuration is rejected.
#[derive(Debug)]
pub enum ConfigError {
    /// The text is no KDL document.
    Syntax,
    UnknownTopLevel(String),
    UnexpectedNode { expected: String, found: String },
    MissingProperty { node: String, property: String },
    UnknownKey(String),
    HoldNotModifier(Key),
    MissingTrigger,
    BadCombo(ComboError),
    ShorthandRemoved(String),
    NoAction(String),
    BadExtend(String),
    BadSelection(String),
    SelectionNeedsArgument,
    UnknownStep(String),
    NeedsTarget(String),
    UnknownAction(String),
    UnknownCorner(String),
    UnknownSide(String),
    UnknownDirection(String),
    BadWorkspace { value: String, cause: NumberFault },
    BadRegex { pattern: String, cause: String },
    NotInteger(String),
    OutOfRange(String),
    NotNumber(String),
}

/// What a [`ConfigError`] says.
pub enum ConfigFault {
    Syntax,
    UnknownTopLevel(Seq<char>),
    UnexpectedNode { expected: Seq<char>, found: Seq<char> },
    MissingProperty { node: Seq<char>, property: Seq<char> },
    UnknownKey(Seq<char>),
    HoldNotModifier(Key),
    MissingTrigger,
    BadCombo(ComboFault),
    ShorthandRemoved(Seq<char>),
    NoAction(Seq<char>),
    BadExtend(Seq<char>),
    BadSelection(Seq<char>),
    SelectionNeedsArgument,
    UnknownStep(Seq<char>),
    NeedsTarget(Seq<char>),
    UnknownAction(Seq<char>),
    UnknownCorner(Seq<char>),
    UnknownSide(Seq<char>),
    UnknownDirection(Seq<char>),
    BadWorkspace { value: Seq<char>, cause: NumberFault },
    BadRegex { pattern: Seq<char>, cause: Seq<char> },
    NotInteger(Seq<char>),
    OutOfRange(Seq<char>),
    NotNumber(Seq<char>),
}

impl View for ConfigError {
    type V = ConfigFault;

    open spec fn view(&self) -> ConfigFault {
        match *self {
            ConfigError::Syntax => ConfigFault::Syntax,
            ConfigError::UnknownTopLevel(s) => ConfigFault::UnknownTopLevel(s@),
            ConfigError::UnexpectedNode { expected, found } => ConfigFault::UnexpectedNode {
                expected: expected@,
                found: found@,
            },
            ConfigError::MissingProperty { node, property } => ConfigFault::MissingProperty {
                node: node@,
                property: property@,
            },
            ConfigError::UnknownKey(s) => ConfigFault::UnknownKey(s@),
            ConfigError::HoldNotModifier(key) => ConfigFault::HoldNotModifier(key),
            ConfigError::MissingTrigger => ConfigFault::MissingTrigger,
            ConfigError::BadCombo(e) => ConfigFault::BadCombo(e@),
            ConfigError::ShorthandRemoved(s) => ConfigFault::ShorthandRemoved(s@),
            ConfigError::NoAction(s) => ConfigFault::NoAction(s@),
            ConfigError::BadExtend(s) => ConfigFault::BadExtend(s@),
            ConfigError::BadSelection(s) => ConfigFault::BadSelection(s@),
            ConfigError::SelectionNeedsArgument => ConfigFault::SelectionNeedsArgument,
            ConfigError::UnknownStep(s) => ConfigFault::UnknownStep(s@),
            ConfigError::NeedsTarget(s) => ConfigFault::NeedsTarget(s@),
            ConfigError::UnknownAction(s) => ConfigFault::UnknownAction(s@),
            ConfigError::UnknownCorner(s) => ConfigFault::UnknownCorner(s@),
            ConfigError::UnknownSide(s) => ConfigFault::UnknownSide(s@),
            ConfigError::UnknownDirection(s) => ConfigFault::UnknownDirection(s@),
            ConfigError::BadWorkspace { value, cause } => ConfigFault::BadWorkspace {
                value: value@,
                cause,
            },
            ConfigError::BadRegex { pattern, cause } => ConfigFault::BadRegex {
                pattern: pattern@,
                cause: cause@,
            },
            ConfigError::NotInteger(s) => ConfigFault::NotInteger(s@),
            ConfigError::OutOfRange(s) => ConfigFault::OutOfRange(s@),
            ConfigError::NotNumber(s) => ConfigFault::NotNumber(s@),
        }
    }
}

impl ConfigFault {
    /// The message that a user reads.
    pub open spec fn text(self) -> Seq<char> {
        match self {
            ConfigFault::Syntax => "Failed to parse KDL document"@,
            ConfigFault::UnknownTopLevel(s) => "unknown top-level node "@ + debug_quoted(s),
            ConfigFault::UnexpectedNode { expected, found } => "expected "@ + debug_quoted(expected)
                + " node, found "@ + debug_quoted(found),
            ConfigFault::MissingProperty { node, property } => "node "@ + debug_quoted(node)
                + " is missing property "@ + debug_quoted(property),
            ConfigFault::UnknownKey(s) => "unknown key "@ + debug_quoted(s),
            ConfigFault::HoldNotModifier(key) => "multipurpose hold "@ + key.spec_label()
                + " is not a modifier key"@,
            ConfigFault::MissingTrigger => "bind is missing its trigger combo argument"@,
            ConfigFault::BadCombo(fault) => fault.text(),
            ConfigFault::ShorthandRemoved(s) => "bind "@ + debug_quoted(s)
                + ": the `to=`/`mark-to=` shorthand was removed; use a child node instead, e.g. { keys \"...\"; } (add extend=\"selection\" for mark)"@,
            ConfigFault::NoAction(s) => "bind "@ + debug_quoted(s) + " has no action"@,
            ConfigFault::BadExtend(s) => "keys extend="@ + debug_quoted(s)
                + " is invalid (only extend=\"selection\")"@,
            ConfigFault::BadSelection(s) => "selection "@ + debug_quoted(s)
                + " is invalid (expected \"start\" or \"clear\")"@,
            ConfigFault::SelectionNeedsArgument =>
                "selection needs an argument: \"start\" or \"clear\""@,
            ConfigFault::UnknownStep(s) => "unknown step node "@ + debug_quoted(s),
            ConfigFault::NeedsTarget(s) => s
                + " needs a target: a positional string, or an os property like windows=/linux="@,
            ConfigFault::UnknownAction(s) => "unknown window action "@ + debug_quoted(s),
            ConfigFault::UnknownCorner(s) => "unknown corner "@ + debug_quoted(s)
                + " (expected top-left/top-right/bottom-left/bottom-right)"@,
            ConfigFault::UnknownSide(s) => "unknown side "@ + debug_quoted(s)
                + " (expected left/right/top/bottom)"@,
            ConfigFault::UnknownDirection(s) => "unknown cycle direction "@ + debug_quoted(s)
                + " (expected forward/backward)"@,
            ConfigFault::BadWorkspace { value, .. } => "workspace "@ + debug_quoted(value)
                + " must be prev/next or a number"@,
            ConfigFault::BadRegex { pattern, .. } => "invalid regex "@ + debug_quoted(pattern),
            ConfigFault::NotInteger(s) => "property "@ + debug_quoted(s) + " must be an integer"@,
            ConfigFault::OutOfRange(s) => "property "@ + debug_quoted(s) + " out of range"@,
            ConfigFault::NotNumber(s) => "property "@ + debug_quoted(s) + " must be a number"@,
        }
    }

    /// What lies behind the message, where it does not say all.
    pub open spec fn reason(self) -> Option<Seq<char>> {
        match self {
            ConfigFault::BadWorkspace { cause, .. } => Some(cause.text()),
            ConfigFault::BadRegex { cause, .. } => Some(cause),
            ConfigFault::OutOfRange(_) => Some("out of range integral type conversion attempted"@),
            _ => None,
        }
    }

    /// The message with what lies behind it.
    pub open spec fn full_text(self) -> Seq<char> {
        match self.reason() {
            Some(reason) => self.text() + ": "@ + reason,
            None => self.text(),
        }
    }
}

impl NumberFault {
    /// What is wrong with the number.
    pub open spec fn text(self) -> Seq<char> {
        match self {
            NumberFault::Empty => "cannot parse integer from empty string"@,
            NumberFault::NotDigit => "invalid digit found in string"@,
            NumberFault::TooLarge => "number too large to fit in target type"@,
        }
    }

    /// What is wrong with the number.
    pub fn message(self) -> (r: &'static str)
        ensures
            r@ == self.text(),
    {
        match self {
            NumberFault::Empty => "cannot parse integer from empty string",
            NumberFault::NotDigit => "invalid digit found in string",
            NumberFault::TooLarge => "number too large to fit in target type",
        }
    }
}

/// `before`, the quoted `s`, and `after`.
fn about(before: &str, s: &str, after: &str) -> (r: String)
    ensures
        r@ == before@ + debug_quoted(s@) + after@,
{
    let mut out = owned(before);
    out.append(quoted(s).as_str());
    out.append(after);
    out
}

/// `before` and the quoted `s`.
fn naming(before: &str, s: &str) -> (r: String)
    ensures
        r@ == before@ + debug_quoted(s@),
{
    let mut out = owned(before);
    out.append(quoted(s).as_str());
    out
}

impl ConfigError {
    /// The message that a user reads.
    pub fn message(&self) -> (r: String)
        ensures
            r@ == self@.text(),
    {
        match self {
            ConfigError::Syntax => owned("Failed to parse KDL document"),
            ConfigError::UnknownTopLevel(s) => naming("unknown top-level node ", s.as_str()),
            ConfigError::UnexpectedNode { expected, found } => {
                let mut out = about("expected ", expected.as_str(), " node, found ");
                out.append(quoted(found.as_str()).as_str());
                out
            },
            ConfigError::MissingProperty { node, property } => {
                let mut out = about("node ", node.as_str(), " is missing property ");
                out.append(quoted(property.as_str()).as_str());
                out
            },
            ConfigError::UnknownKey(s) => naming("unknown key ", s.as_str()),
            ConfigError::HoldNotModifier(key) => {
                let mut out = owned("multipurpose hold ");
                out.append(key.label());
                out.append(" is not a modifier key");
                out
            },
            ConfigError::MissingTrigger => owned("bind is missing its trigger combo argument"),
            ConfigError::BadCombo(e) => e.message(),
            ConfigError::ShorthandRemoved(s) => about(
                "bind ",
                s.as_str(),
                ": the `to=`/`mark-to=` shorthand was removed; use a child node instead, e.g. { keys \"...\"; } (add extend=\"selection\" for mark)",
            ),
            ConfigError::NoAction(s) => about("bind ", s.as_str(), " has no action"),
            ConfigError::BadExtend(s) => about(
                "keys extend=",
                s.as_str(),
                " is invalid (only extend=\"selection\")",
            ),
            ConfigError::BadSelection(s) => about(
                "selection ",
                s.as_str(),
                " is invalid (expected \"start\" or \"clear\")",
            ),
            ConfigError::SelectionNeedsArgument => owned(
                "selection needs an argument: \"start\" or \"clear\"",
            ),
            ConfigError::UnknownStep(s) => naming("unknown step node ", s.as_str()),
            ConfigError::NeedsTarget(s) => {
                let mut out = s.clone();
                out.append(
                    " needs a target: a positional string, or an os property like windows=/linux=",
                );
                out
            },
            ConfigError::UnknownAction(s) => naming("unknown window action ", s.as_str()),
            ConfigError::UnknownCorner(s) => about(
                "unknown corner ",
                s.as_str(),
                " (expected top-left/top-right/bottom-left/bottom-right)",
            ),
            ConfigError::UnknownSide(s) => about(
                "unknown side ",
                s.as_str(),
                " (expected left/right/top/bottom)",
            ),
            ConfigError::UnknownDirection(s) => about(
                "unknown cycle direction ",
                s.as_str(),
                " (expected forward/backward)",
            ),
            ConfigError::BadWorkspace { value, .. } => about(
                "workspace ",
                value.as_str(),
                " must be prev/next or a number",
            ),
            ConfigError::BadRegex { pattern, .. } => naming("invalid regex ", pattern.as_str()),
            ConfigError::NotInteger(s) => about("property ", s.as_str(), " must be an integer"),
            ConfigError::OutOfRange(s) => about("property ", s.as_str(), " out of range"),
            ConfigError::NotNumber(s) => about("property ", s.as_str(), " must be a number"),
        }
    }

    /// What lies behind the message, where it does not say all.
    pub fn cause(&self) -> (r: Option<String>)
        ensures
            match r {
                Some(text) => self@.reason() == Some(text@),
                None => self@.reason() is None,
            },
    {
        match self {
            ConfigError::BadWorkspace { cause, .. } => Some(owned(cause.message())),
            ConfigError::BadRegex { cause, .. } => Some(owned(cause.as_str())),
            ConfigError::OutOfRange(_) => Some(
                owned("out of range integral type conversion attempted"),
            ),
            _ => None,
        }
    }

    /// The message with what lies behind it.
    pub fn report(&self) -> (r: String)
        ensures
            r@ == self@.full_text(),
    {
        let mut out = self.message();
        if let Some(cause) = self.cause() {
            out.append(": ");
            out.append(cause.as_str());
        }
        out
    }
}

// === Small values ===

/// What a result says, the error by its fault.
pub open spec fn result_view<T>(r: Result<T, ConfigError>) -> Result<T, ConfigFault> {
    match r {
        Ok(v) => Ok(v),
        Err(e) => Err(e@),
    }
}

/// A required text property.
pub open spec fn required(n: NodeView, name: Seq<char>) -> Result<Seq<char>, ConfigFault> {
    match n.prop(name) {
        Some(s) => Ok(s),
        None => Err(ConfigFault::MissingProperty { node: n.name, property: name }),
    }
}

fn prop_required<'a>(node: &'a Node, name: &str) -> (r: Result<&'a str, ConfigError>)
    ensures
        match r {
            Ok(s) => required(node@, name@) == Ok::<Seq<char>, ConfigFault>(s@),
            Err(e) => required(node@, name@) == Err::<Seq<char>, ConfigFault>(e@),
        },
{
    match node.prop_str(name) {
        Some(s) => Ok(s),
        None => {
            proof {
                lemma_node_children(*node);
            }
            Err(
                ConfigError::MissingProperty {
                    node: owned(node.name.as_str()),
                    property: owned(name),
                },
            )
        },
    }
}

/// The key a required property names.
pub open spec fn required_key(n: NodeView, name: Seq<char>) -> Result<Key, ConfigFault> {
    match required(n, name) {
        Err(e) => Err(e),
        Ok(s) => match key_named(s) {
            Some(key) => Ok(key),
            None => Err(ConfigFault::UnknownKey(s)),
        },
    }
}

fn key_required(node: &Node, name: &str) -> (r: Result<Key, ConfigError>)
    ensures
        result_view(r) == required_key(node@, name@),
{
    match prop_required(node, name) {
        Err(e) => Err(e),
        Ok(s) => match Key::parse(s) {
            Some(key) => Ok(key),
            None => Err(ConfigError::UnknownKey(owned(s))),
        },
    }
}

/// An integer property that fits in 32 bits; 0 where it is absent.
pub open spec fn int_prop(n: NodeView, name: Seq<char>) -> Result<i32, ConfigFault> {
    match property(n.entries, name) {
        None => Ok(0),
        Some(ValueView::Integer(i)) => if i32::MIN <= i <= i32::MAX {
            Ok(i as i32)
        } else {
            Err(ConfigFault::OutOfRange(name))
        },
        Some(_) => Err(ConfigFault::NotInteger(name)),
    }
}

/// The named integer property of `node`, or `0` when it is absent.
fn prop_i32(node: &Node, name: &str) -> (r: Result<i32, ConfigError>)
    ensures
        result_view(r) == int_prop(node@, name@),
{
    match node.property(name) {
        None => Ok(0),
        Some(Value::Integer(i)) => if -0x8000_0000 <= *i && *i <= 0x7fff_ffff {
            Ok(*i as i32)
        } else {
            Err(ConfigError::OutOfRange(owned(name)))
        },
        Some(_) => Err(ConfigError::NotInteger(owned(name))),
    }
}

/// A required numeric property, an integer or a decimal.
pub open spec fn scale_prop(n: NodeView, name: Seq<char>) -> Result<Scale, ConfigFault> {
    match property(n.entries, name) {
        None => Err(ConfigFault::MissingProperty { node: n.name, property: name }),
        Some(ValueView::Float(bits)) => Ok(Scale::Float(bits)),
        Some(ValueView::Integer(i)) => Ok(Scale::Integer(i)),
        Some(_) => Err(ConfigFault::NotNumber(name)),
    }
}

/// The named numeric property of `node`, accepting an integer or float literal
/// (so both `w=1` and `w=0.6` parse). Required.
fn prop_scale(node: &Node, name: &str) -> (r: Result<Scale, ConfigError>)
    ensures
        result_view(r) == scale_prop(node@, name@),
{
    proof {
        lemma_node_children(*node);
    }
    match node.property(name) {
        None => Err(
            ConfigError::MissingProperty {
                node: owned(node.name.as_str()),
                property: owned(name),
            },
        ),
        Some(Value::Float(bits)) => Ok(Scale::Float(*bits)),
        Some(Value::Integer(i)) => Ok(Scale::Integer(*i)),
        Some(_) => Err(ConfigError::NotNumber(owned(name))),
    }
}

pub open spec fn corner_named(s: Seq<char>) -> Result<Corner, ConfigFault> {
    if s == "top-left"@ {
        Ok(Corner::TopLeft)
    } else if s == "top-right"@ {
        Ok(Corner::TopRight)
    } else if s == "bottom-left"@ {
        Ok(Corner::BottomLeft)
    } else if s == "bottom-right"@ {
        Ok(Corner::BottomRight)
    } else {
        Err(ConfigFault::UnknownCorner(s))
    }
}

fn parse_corner(value: &str) -> (r: Result<Corner, ConfigError>)
    ensures
        result_view(r) == corner_named(value@),
{
    if same_text(value, "top-left") {
        Ok(Corner::TopLeft)
    } else if same_text(value, "top-right") {
        Ok(Corner::TopRight)
    } else if same_text(value, "bottom-left") {
        Ok(Corner::BottomLeft)
    } else if same_text(value, "bottom-right") {
        Ok(Corner::BottomRight)
    } else {
        Err(ConfigError::UnknownCorner(owned(value)))
    }
}

/// A preset's anchor: a corner, or the centre where there is none.
pub open spec fn anchor_named(s: Option<Seq<char>>) -> Result<Option<Corner>, ConfigFault> {
    match s {
        None => Ok(None),
        Some(s) => if s == "center"@ || s == "centre"@ {
            Ok(None)
        } else {
            match corner_named(s) {
                Ok(corner) => Ok(Some(corner)),
                Err(e) => Err(e),
            }
        },
    }
}

/// Parse a `preset` anchor: a corner, or the centre (`center`/absent → `None`).
fn parse_anchor(value: Option<&str>) -> (r: Result<Option<Corner>, ConfigError>)
    ensures
        result_view(r) == anchor_named(
            match value {
                Some(s) => Some(s@),
                None => None,
            },
        ),
{
    match value {
        None => Ok(None),
        Some(s) => if same_text(s, "center") || same_text(s, "centre") {
            Ok(None)
        } else {
            match parse_corner(s) {
                Ok(corner) => Ok(Some(corner)),
                Err(e) => Err(e),
            }
        },
    }
}

pub open spec fn side_named(s: Seq<char>) -> Result<Side, ConfigFault> {
    if s == "left"@ {
        Ok(Side::Left)
    } else if s == "right"@ {
        Ok(Side::Right)
    } else if s == "top"@ {
        Ok(Side::Top)
    } else if s == "bottom"@ {
        Ok(Side::Bottom)
    } else {
        Err(ConfigFault::UnknownSide(s))
    }
}

fn parse_side(value: &str) -> (r: Result<Side, ConfigError>)
    ensures
        result_view(r) == side_named(value@),
{
    if same_text(value, "left") {
        Ok(Side::Left)
    } else if same_text(value, "right") {
        Ok(Side::Right)
    } else if same_text(value, "top") {
        Ok(Side::Top)
    } else if same_text(value, "bottom") {
        Ok(Side::Bottom)
    } else {
        Err(ConfigError::UnknownSide(owned(value)))
    }
}

/// A cycle direction; forward where none is given.
pub open spec fn direction_named(s: Option<Seq<char>>) -> Result<CycleDirection, ConfigFault> {
    match s {
        None => Ok(CycleDirection::Forward),
        Some(s) => if s == "forward"@ || s == "next"@ {
            Ok(CycleDirection::Forward)
        } else if s == "backward"@ || s == "prev"@ || s == "previous"@ {
            Ok(CycleDirection::Backward)
        } else {
            Err(ConfigFault::UnknownDirection(s))
        },
    }
}

/// Parse a `cycle-same-app` direction; absent defaults to forward.
fn parse_cycle_direction(value: Option<&str>) -> (r: Result<CycleDirection, ConfigError>)
    ensures
        result_view(r) == direction_named(
            match value {
                Some(s) => Some(s@),
                None => None,
            },
        ),
{
    match value {
        None => Ok(CycleDirection::Forward),
        Some(s) => if same_text(s, "forward") || same_text(s, "next") {
            Ok(CycleDirection::Forward)
        } else if same_text(s, "backward") || same_text(s, "prev") || same_text(s, "previous") {
            Ok(CycleDirection::Backward)
        } else {
            Err(ConfigError::UnknownDirection(owned(s)))
        },
    }
}

/// The characters are decimal digits.
pub open spec fn all_digits(s: Seq<char>) -> bool {
    forall|i: int| 0 <= i < s.len() ==> '0' <= #[trigger] s[i] <= '9'
}

/// The number that decimal digits write.
pub open spec fn digits_value(s: Seq<char>) -> nat
    decreases s.len(),
{
    if s.len() == 0 {
        0
    } else {
        digits_value(s.drop_last()) * 10 + (s.last() as nat - '0' as nat) as nat
    }
}

/// The number a text writes: an optional plus sign and then only digits, at least
/// one, with a value that fits in 32 bits.
pub open spec fn number_of(s: Seq<char>) -> Option<u32> {
    let digits = if s.len() > 0 && s[0] == '+' {
        s.skip(1)
    } else {
        s
    };
    if digits.len() > 0 && all_digits(digits) && digits_value(digits) <= u32::MAX {
        Some(digits_value(digits) as u32)
    } else {
        None
    }
}

/// The first thing wrong with a run of digits, from number `i` on.
pub open spec fn digit_fault(digits: Seq<char>, i: int) -> Option<NumberFault>
    decreases digits.len() - i,
{
    if i < 0 || i >= digits.len() {
        None
    } else if !('0' <= digits[i] <= '9') {
        Some(NumberFault::NotDigit)
    } else if digits_value(digits.take(i + 1)) > u32::MAX {
        Some(NumberFault::TooLarge)
    } else {
        digit_fault(digits, i + 1)
    }
}

/// What is wrong with a text as a number, if anything is.
pub open spec fn number_fault(s: Seq<char>) -> Option<NumberFault> {
    let digits = if s.len() > 0 && s[0] == '+' {
        s.skip(1)
    } else {
        s
    };
    if s.len() == 0 {
        Some(NumberFault::Empty)
    } else if digits.len() == 0 {
        Some(NumberFault::NotDigit)
    } else {
        digit_fault(digits, 0)
    }
}

proof fn lemma_digits_grow(s: Seq<char>, n: int)
    requires
        0 <= n <= s.len(),
    ensures
        digits_value(s.take(n)) <= digits_value(s),
    decreases s.len() - n,
{
    if n < s.len() {
        assert(s.take(n + 1).drop_last() =~= s.take(n));
        lemma_digits_grow(s, n + 1);
    } else {
        assert(s.take(n) =~= s);
    }
}

fn parse_number(s: &str) -> (r: Result<u32, NumberFault>)
    ensures
        match r {
            Ok(n) => number_of(s@) == Some(n),
            Err(fault) => number_of(s@) is None && number_fault(s@) == Some(fault),
        },
{
    let v = chars_of(s);
    let start: usize = if v.len() > 0 && v[0] == '+' {
        1
    } else {
        0
    };
    let ghost digits = if s@.len() > 0 && s@[0] == '+' {
        s@.skip(1)
    } else {
        s@
    };
    assert(digits =~= v@.skip(start as int));
    if start == v.len() {
        return Err(
            if start == 0 {
                NumberFault::Empty
            } else {
                NumberFault::NotDigit
            },
        );
    }
    let mut total: u64 = 0;
    let mut i: usize = start;
    assert(digits.take(0) =~= Seq::empty());
    while i < v.len()
        invariant
            start <= i <= v@.len(),
            start < v@.len(),
            digits == v@.skip(start as int),
            number_of(s@) == if digits.len() > 0 && all_digits(digits) && digits_value(digits)
                <= u32::MAX {
                Some(digits_value(digits) as u32)
            } else {
                None
            },
            number_fault(s@) == digit_fault(digits, i - start),
            total == digits_value(digits.take(i - start)),
            total <= u32::MAX,
            all_digits(digits.take(i - start)),
        decreases v@.len() - i,
    {
        let c = v[i];
        let ghost n = i - start;
        assert(digits[n] == c);
        if c < '0' || c > '9' {
            return Err(NumberFault::NotDigit);
        }
        proof {
            assert(digits.take(n + 1).drop_last() =~= digits.take(n));
            assert(digits.take(n + 1).last() == c);
        }
        total = total * 10 + (c as u64 - '0' as u64);
        if total > u32::MAX as u64 {
            proof {
                lemma_digits_grow(digits, n + 1);
            }
            return Err(NumberFault::TooLarge);
        }
        assert(all_digits(digits.take(n + 1))) by {
            assert forall|k: int| 0 <= k < digits.take(n + 1).len() implies '0'
                <= #[trigger] digits.take(n + 1)[k] <= '9' by {
                if k < n {
                    assert(digits.take(n)[k] == digits.take(n + 1)[k]);
                }
            }
        }
        i = i + 1;
    }
    assert(digits.take(v@.len() - start) =~= digits);
    Ok(total as u32)
}

pub open spec fn workspace_named(s: Seq<char>) -> Result<Workspace, ConfigFault> {
    if s == "prev"@ || s == "previous"@ || s == "left"@ {
        Ok(Workspace::Prev)
    } else if s == "next"@ || s == "right"@ {
        Ok(Workspace::Next)
    } else {
        match number_of(s) {
            Some(n) => Ok(Workspace::Index(n)),
            None => Err(ConfigFault::BadWorkspace { value: s, cause: number_fault(s)->0 }),
        }
    }
}

fn parse_workspace(value: &str) -> (r: Result<Workspace, ConfigError>)
    ensures
        result_view(r) == workspace_named(value@),
{
    if same_text(value, "prev") || same_text(value, "previous") || same_text(value, "left") {
        Ok(Workspace::Prev)
    } else if same_text(value, "next") || same_text(value, "right") {
        Ok(Workspace::Next)
    } else {
        match parse_number(value) {
            Ok(n) => Ok(Workspace::Index(n)),
            Err(cause) => Err(ConfigError::BadWorkspace { value: owned(value), cause }),
        }
    }
}

// === Window actions ===

pub open spec fn adjust_of(n: NodeView) -> Result<WindowAction, ConfigFault> {
    match (
        int_prop(n, "dx"@),
        int_prop(n, "dy"@),
        int_prop(n, "dw"@),
        int_prop(n, "dh"@),
    ) {
        (Err(e), _, _, _) => Err(e),
        (_, Err(e), _, _) => Err(e),
        (_, _, Err(e), _) => Err(e),
        (_, _, _, Err(e)) => Err(e),
        (Ok(dx), Ok(dy), Ok(dw), Ok(dh)) => Ok(WindowAction::Adjust { dx, dy, dw, dh }),
    }
}

fn lower_adjust(node: &Node) -> (r: Result<WindowAction, ConfigError>)
    ensures
        result_view(r) == adjust_of(node@),
{
    let dx: i32 = match prop_i32(node, "dx") {
        Ok(v) => v,
        Err(e) => return Err(e),
    };
    let dy: i32 = match prop_i32(node, "dy") {
        Ok(v) => v,
        Err(e) => return Err(e),
    };
    let dw: i32 = match prop_i32(node, "dw") {
        Ok(v) => v,
        Err(e) => return Err(e),
    };
    let dh: i32 = match prop_i32(node, "dh") {
        Ok(v) => v,
        Err(e) => return Err(e),
    };
    Ok(WindowAction::Adjust { dx, dy, dw, dh })
}

pub open spec fn preset_of(n: NodeView) -> Result<WindowAction, ConfigFault> {
    match (scale_prop(n, "w"@), scale_prop(n, "h"@), anchor_named(n.prop("anchor"@))) {
        (Err(e), _, _) => Err(e),
        (_, Err(e), _) => Err(e),
        (_, _, Err(e)) => Err(e),
        (Ok(w), Ok(h), Ok(anchor)) => Ok(WindowAction::Preset { w, h, anchor }),
    }
}

fn lower_preset(node: &Node) -> (r: Result<WindowAction, ConfigError>)
    ensures
        result_view(r) == preset_of(node@),
{
    let w = match prop_scale(node, "w") {
        Ok(v) => v,
        Err(e) => return Err(e),
    };
    let h = match prop_scale(node, "h") {
        Ok(v) => v,
        Err(e) => return Err(e),
    };
    match parse_anchor(node.prop_str("anchor")) {
        Ok(anchor) => Ok(WindowAction::Preset { w, h, anchor }),
        Err(e) => Err(e),
    }
}

/// The corner the required property `to` names.
pub open spec fn corner_to(n: NodeView) -> Result<Corner, ConfigFault> {
    match required(n, "to"@) {
        Ok(s) => corner_named(s),
        Err(e) => Err(e),
    }
}

fn corner_required(node: &Node) -> (r: Result<Corner, ConfigError>)
    ensures
        result_view(r) == corner_to(node@),
{
    match prop_required(node, "to") {
        Ok(s) => parse_corner(s),
        Err(e) => Err(e),
    }
}

/// The workspace the required property `to` names.
pub open spec fn workspace_to(n: NodeView) -> Result<Workspace, ConfigFault> {
    match required(n, "to"@) {
        Ok(s) => workspace_named(s),
        Err(e) => Err(e),
    }
}

fn workspace_required(node: &Node) -> (r: Result<Workspace, ConfigError>)
    ensures
        result_view(r) == workspace_to(node@),
{
    match prop_required(node, "to") {
        Ok(s) => parse_workspace(s),
        Err(e) => Err(e),
    }
}

/// What a `wm` step asks for, by the name in its `action` property.
pub open spec fn action_named(n: NodeView, action: Seq<char>) -> Result<WindowAction, ConfigFault> {
    if action == "adjust"@ {
        adjust_of(n)
    } else if action == "preset"@ {
        preset_of(n)
    } else if action == "center"@ {
        Ok(WindowAction::Center)
    } else if action == "snap"@ {
        match corner_to(n) {
            Ok(corner) => Ok(WindowAction::Snap(corner)),
            Err(e) => Err(e),
        }
    } else if action == "corner"@ {
        match corner_to(n) {
            Ok(corner) => Ok(WindowAction::Corner(corner)),
            Err(e) => Err(e),
        }
    } else if action == "smart-tile"@ {
        match required(n, "to"@) {
            Err(e) => Err(e),
            Ok(s) => match side_named(s) {
                Ok(side) => Ok(WindowAction::SmartTile { side, fraction: TileFraction::Half }),
                Err(e) => Err(e),
            },
        }
    } else if action == "find-window"@ {
        Ok(WindowAction::FindWindow)
    } else if action == "maximize"@ {
        Ok(WindowAction::Maximize)
    } else if action == "maximize-toggle"@ {
        Ok(WindowAction::MaximizeToggle)
    } else if action == "minimize"@ {
        Ok(WindowAction::Minimize)
    } else if action == "always-on-top"@ {
        Ok(WindowAction::AlwaysOnTop)
    } else if action == "show-desktop"@ {
        Ok(WindowAction::ShowDesktop)
    } else if action == "move-to-monitor"@ {
        match required(n, "to"@) {
            Err(e) => Err(e),
            Ok(s) => match direction_named(Some(s)) {
                Ok(direction) => Ok(WindowAction::MoveToMonitor(direction)),
                Err(e) => Err(e),
            },
        }
    } else if action == "cycle-same-app"@ {
        match direction_named(n.prop("direction"@)) {
            Ok(direction) => Ok(WindowAction::CycleSameApp(direction)),
            Err(e) => Err(e),
        }
    } else if action == "workspace"@ {
        match workspace_to(n) {
            Ok(target) => Ok(WindowAction::Workspace { target, move_window: false }),
            Err(e) => Err(e),
        }
    } else if action == "move-to-workspace"@ {
        match workspace_to(n) {
            Ok(target) => Ok(WindowAction::Workspace { target, move_window: true }),
            Err(e) => Err(e),
        }
    } else {
        Err(ConfigFault::UnknownAction(action))
    }
}

/// What a `wm` step asks for.
pub open spec fn window_action_of(n: NodeView) -> Result<WindowAction, ConfigFault> {
    match required(n, "action"@) {
        Ok(action) => action_named(n, action),
        Err(e) => Err(e),
    }
}

/// Lower a `wm action="..."` step into a [`WindowAction`]. Position/size
/// deltas (`dx`/`dy`/`dw`/`dh`) default to `0`; `preset` requires `w` and `h`.
fn lower_window_action(node: &Node) -> (r: Result<WindowAction, ConfigError>)
    ensures
        result_view(r) == window_action_of(node@),
{
    let action = match prop_required(node, "action") {
        Ok(action) => action,
        Err(e) => return Err(e),
    };
    if same_text(action, "adjust") {
        lower_adjust(node)
    } else if same_text(action, "preset") {
        lower_preset(node)
    } else if same_text(action, "center") {
        Ok(WindowAction::Center)
    } else if same_text(action, "snap") {
        match corner_required(node) {
            Ok(corner) => Ok(WindowAction::Snap(corner)),
            Err(e) => Err(e),
        }
    } else if same_text(action, "corner") {
        match corner_required(node) {
            Ok(corner) => Ok(WindowAction::Corner(corner)),
            Err(e) => Err(e),
        }
    } else if same_text(action, "smart-tile") {
        match prop_required(node, "to") {
            Err(e) => Err(e),
            Ok(s) => match parse_side(s) {
                // The engine fills the real fraction from the tile cycle.
                Ok(side) => Ok(WindowAction::SmartTile { side, fraction: TileFraction::Half }),
                Err(e) => Err(e),
            },
        }
    } else if same_text(action, "find-window") {
        Ok(WindowAction::FindWindow)
    } else if same_text(action, "maximize") {
        Ok(WindowAction::Maximize)
    } else if same_text(action, "maximize-toggle") {
        Ok(WindowAction::MaximizeToggle)
    } else if same_text(action, "minimize") {
        Ok(WindowAction::Minimize)
    } else if same_text(action, "always-on-top") {
        Ok(WindowAction::AlwaysOnTop)
    } else if same_text(action, "show-desktop") {
        Ok(WindowAction::ShowDesktop)
    } else if same_text(action, "move-to-monitor") {
        match prop_required(node, "to") {
            Err(e) => Err(e),
            Ok(s) => match parse_cycle_direction(Some(s)) {
                Ok(direction) => Ok(WindowAction::MoveToMonitor(direction)),
                Err(e) => Err(e),
            },
        }
    } else if same_text(action, "cycle-same-app") {
        match parse_cycle_direction(node.prop_str("direction")) {
            Ok(direction) => Ok(WindowAction::CycleSameApp(direction)),
            Err(e) => Err(e),
        }
    } else if same_text(action, "workspace") {
        match workspace_required(node) {
            Ok(target) => Ok(WindowAction::Workspace { target, move_window: false }),
            Err(e) => Err(e),
        }
    } else if same_text(action, "move-to-workspace") {
        match workspace_required(node) {
            Ok(target) => Ok(WindowAction::Workspace { target, move_window: true }),
            Err(e) => Err(e),
        }
    } else {
        Err(ConfigError::UnknownAction(owned(action)))
    }
}

// === Steps ===

/// The target a step gives for an OS: its own property wins over the argument;
/// none where it names only other systems.
pub open spec fn target_for(n: NodeView, os: Seq<char>) -> Result<Option<Seq<char>>, ConfigFault> {
    if let Some(target) = n.prop(os) {
        Ok(Some(target))
    } else if let Some(target) = n.arg() {
        Ok(Some(target))
    } else if n.prop("windows"@) is Some || n.prop("linux"@) is Some || n.prop("macos"@) is Some {
        Ok(None)
    } else {
        Err(ConfigFault::NeedsTarget(n.name))
    }
}

/// Resolve a step node's target string for `os`, shared by `keys` and `exec`. A
/// per-OS property (`windows=`/`linux=`/`macos=`) wins; otherwise the positional
/// argument is the cross-OS default. Returns `None` when the node lists only other
/// OSes (so the step is skipped here); errors when it gives no target at all.
fn os_target<'a>(node: &'a Node, os: &str) -> (r: Result<Option<&'a str>, ConfigError>)
    ensures
        match r {
            Ok(Some(s)) => target_for(node@, os@) == Ok::<Option<Seq<char>>, ConfigFault>(
                Some(s@),
            ),
            Ok(None) => target_for(node@, os@) == Ok::<Option<Seq<char>>, ConfigFault>(None),
            Err(e) => target_for(node@, os@) == Err::<Option<Seq<char>>, ConfigFault>(e@),
        },
{
    if let Some(target) = node.prop_str(os) {
        return Ok(Some(target));
    }
    if let Some(target) = node.first_arg() {
        return Ok(Some(target));
    }
    if node.prop_str("windows").is_some() || node.prop_str("linux").is_some() || node.prop_str(
        "macos",
    ).is_some() {
        Ok(None)
    } else {
        proof {
            lemma_node_children(*node);
        }
        Err(ConfigError::NeedsTarget(owned(node.name.as_str())))
    }
}

/// A combo text, with its fault as a configuration's.
pub open spec fn config_combo(s: Seq<char>) -> Result<ComboView, ConfigFault> {
    match combo_of(s) {
        Ok(combo) => Ok(combo),
        Err(fault) => Err(ConfigFault::BadCombo(fault)),
    }
}

/// A `keys` step.
pub open spec fn keys_step(n: NodeView, os: Seq<char>) -> Result<Option<StepView>, ConfigFault> {
    match target_for(n, os) {
        Err(e) => Err(e),
        Ok(None) => Ok(None),
        Ok(Some(target)) => match config_combo(target) {
            Err(e) => Err(e),
            Ok(combo) => match n.prop("extend"@) {
                None => Ok(Some(StepView::Keys(combo))),
                Some(how) => if how == "selection"@ {
                    Ok(Some(StepView::WithMark(combo)))
                } else {
                    Err(ConfigFault::BadExtend(how))
                },
            },
        },
    }
}

/// A step node; none where it is for other systems only.
pub open spec fn step_of(n: NodeView, os: Seq<char>) -> Result<Option<StepView>, ConfigFault> {
    if n.name == "keys"@ {
        keys_step(n, os)
    } else if n.name == "selection"@ {
        match n.arg() {
            None => Err(ConfigFault::SelectionNeedsArgument),
            Some(s) => if s == "start"@ {
                Ok(Some(StepView::SetMark(true)))
            } else if s == "clear"@ {
                Ok(Some(StepView::SetMark(false)))
            } else {
                Err(ConfigFault::BadSelection(s))
            },
        }
    } else if n.name == "pass-through"@ {
        Ok(Some(StepView::PassThrough))
    } else if n.name == "exec"@ {
        match target_for(n, os) {
            Err(e) => Err(e),
            Ok(None) => Ok(None),
            Ok(Some(program)) => Ok(Some(StepView::Exec(program))),
        }
    } else if n.name == "wm"@ {
        match window_action_of(n) {
            Ok(action) => Ok(Some(StepView::Window(action))),
            Err(e) => Err(e),
        }
    } else {
        Err(ConfigFault::UnknownStep(n.name))
    }
}

/// What a lowered step says.
pub open spec fn step_result(r: Result<Option<Step>, ConfigError>) -> Result<
    Option<StepView>,
    ConfigFault,
> {
    match r {
        Ok(Some(step)) => Ok(Some(step@)),
        Ok(None) => Ok(None),
        Err(e) => Err(e@),
    }
}

fn lower_keys(node: &Node, os: &str) -> (r: Result<Option<Step>, ConfigError>)
    ensures
        step_result(r) == keys_step(node@, os@),
{
    let target = match os_target(node, os) {
        Err(e) => return Err(e),
        Ok(None) => return Ok(None),
        Ok(Some(target)) => target,
    };
    let combo = match Combo::parse(target) {
        Ok(combo) => combo,
        Err(e) => return Err(ConfigError::BadCombo(e)),
    };
    // `extend="selection"` makes the emitted combo add Shift while a selection is
    // active; plain `keys` does not.
    match node.prop_str("extend") {
        None => Ok(Some(Step::Keys(combo))),
        Some(how) => if same_text(how, "selection") {
            Ok(Some(Step::WithMark(combo)))
        } else {
            Err(ConfigError::BadExtend(owned(how)))
        },
    }
}

/// Lower a step node. Returns `None` only for a step whose per-OS target list has
/// no entry for `os` — the caller then leaves the step out.
fn lower_step(node: &Node, os: &str) -> (r: Result<Option<Step>, ConfigError>)
    ensures
        step_result(r) == step_of(node@, os@),
{
    proof {
        lemma_node_children(*node);
    }
    let name = node.name.as_str();
    if same_text(name, "keys") {
        lower_keys(node, os)
    } else if same_text(name, "selection") {
        match node.first_arg() {
            None => Err(ConfigError::SelectionNeedsArgument),
            Some(s) => if same_text(s, "start") {
                Ok(Some(Step::SetMark(true)))
            } else if same_text(s, "clear") {
                Ok(Some(Step::SetMark(false)))
            } else {
                Err(ConfigError::BadSelection(owned(s)))
            },
        }
    } else if same_text(name, "pass-through") {
        Ok(Some(Step::PassThrough))
    } else if same_text(name, "exec") {
        match os_target(node, os) {
            Err(e) => Err(e),
            Ok(None) => Ok(None),
            Ok(Some(program)) => Ok(Some(Step::Exec(owned(program)))),
        }
    } else if same_text(name, "wm") {
        match lower_window_action(node) {
            Ok(action) => Ok(Some(Step::Window(action))),
            Err(e) => Err(e),
        }
    } else {
        Err(ConfigError::UnknownStep(owned(name)))
    }
}

/// The steps of the nodes from `i` on, after those in `done`.
pub open spec fn steps_from(nodes: Seq<NodeView>, os: Seq<char>, i: int, done: Seq<StepView>) -> Result<
    Seq<StepView>,
    ConfigFault,
>
    decreases nodes.len() - i,
{
    if i >= nodes.len() {
        Ok(done)
    } else {
        match step_of(nodes[i], os) {
            Err(e) => Err(e),
            Ok(None) => steps_from(nodes, os, i + 1, done),
            Ok(Some(step)) => steps_from(nodes, os, i + 1, done.push(step)),
        }
    }
}

fn lower_steps(nodes: &Vec<Node>, os: &str) -> (r: Result<Vec<Step>, ConfigError>)
    ensures
        match r {
            Ok(steps) => steps_from(node_views(nodes@), os@, 0, Seq::empty()) == Ok::<
                Seq<StepView>,
                ConfigFault,
            >(step_views(steps@)),
            Err(e) => steps_from(node_views(nodes@), os@, 0, Seq::empty()) == Err::<
                Seq<StepView>,
                ConfigFault,
            >(e@),
        },
{
    let ghost all = node_views(nodes@);
    let mut steps: Vec<Step> = Vec::new();
    let mut i: usize = 0;
    assert(step_views(steps@) =~= Seq::empty());
    while i < nodes.len()
        invariant
            i <= nodes@.len(),
            all == node_views(nodes@),
            steps_from(all, os@, 0, Seq::empty()) == steps_from(
                all,
                os@,
                i as int,
                step_views(steps@),
            ),
        decreases nodes@.len() - i,
    {
        assert(all[i as int] == nodes@[i as int]@);
        match lower_step(&nodes[i], os) {
            Err(e) => return Err(e),
            Ok(None) => {},
            Ok(Some(step)) => {
                let ghost before = step_views(steps@);
                steps.push(step);
                assert(step_views(steps@) =~= before.push(step@));
            },
        }
        i = i + 1;
    }
    Ok(steps)
}

// === Keymaps ===

/// What an optional pattern accepts, or the fault of a bad one.
pub open spec fn pattern_of(p: Option<Seq<char>>) -> Result<Option<Set<Seq<char>>>, ConfigFault> {
    match p {
        None => Ok(None),
        Some(p) => match pattern_language(p) {
            Ok(names) => Ok(Some(names)),
            Err(cause) => Err(ConfigFault::BadRegex { pattern: p, cause }),
        },
    }
}

fn compile_optional(pattern: Option<&str>) -> (r: Result<Option<Regex>, ConfigError>)
    ensures
        ({
            let p = match pattern {
                Some(s) => Some(s@),
                None => None,
            };
            match r {
                Ok(re) => pattern_of(p) == Ok::<Option<Set<Seq<char>>>, ConfigFault>(
                    language_of(re),
                ),
                Err(e) => pattern_of(p) == Err::<Option<Set<Seq<char>>>, ConfigFault>(e@),
            }
        }),
{
    match pattern {
        None => Ok(None),
        Some(p) => match compile(p) {
            Ok(re) => Ok(Some(re)),
            Err(e) => Err(ConfigError::BadRegex { pattern: owned(p), cause: fault_text(&e) }),
        },
    }
}

/// Which applications a rule node is for.
pub open spec fn matcher_of(n: NodeView) -> Result<MatcherView, ConfigFault> {
    match (pattern_of(n.prop("application"@)), pattern_of(n.prop("application-not"@))) {
        (Err(e), _) => Err(e),
        (_, Err(e)) => Err(e),
        (Ok(included), Ok(excluded)) => Ok(MatcherView { included, excluded }),
    }
}

fn build_matcher(node: &Node) -> (r: Result<AppMatcher, ConfigError>)
    ensures
        match r {
            Ok(m) => matcher_of(node@) == Ok::<MatcherView, ConfigFault>(m@),
            Err(e) => matcher_of(node@) == Err::<MatcherView, ConfigFault>(e@),
        },
{
    let included = match compile_optional(node.prop_str("application")) {
        Ok(re) => re,
        Err(e) => return Err(e),
    };
    let excluded = match compile_optional(node.prop_str("application-not")) {
        Ok(re) => re,
        Err(e) => return Err(e),
    };
    Ok(AppMatcher { included, excluded })
}

/// A node that has to have a certain name has another.
pub open spec fn misnamed(n: NodeView, name: Seq<char>) -> ConfigFault {
    ConfigFault::UnexpectedNode { expected: name, found: n.name }
}

/// A binding: its trigger and its steps, or none where it is for other systems
/// only.
pub open spec fn bind_of(n: NodeView, os: Seq<char>) -> Result<
    Option<(ComboView, Seq<StepView>)>,
    ConfigFault,
> {
    if n.name != "bind"@ {
        Err(misnamed(n, "bind"@))
    } else if n.arg() is None {
        Err(ConfigFault::MissingTrigger)
    } else {
        let from = n.arg()->0;
        match config_combo(from) {
            Err(e) => Err(e),
            Ok(trigger) => if n.prop("to"@) is Some || n.prop("mark-to"@) is Some {
                Err(ConfigFault::ShorthandRemoved(from))
            } else {
                match steps_from(n.children, os, 0, Seq::empty()) {
                    Err(e) => Err(e),
                    Ok(steps) => if steps.len() > 0 {
                        Ok(Some((trigger, steps)))
                    } else if n.children.len() > 0 {
                        Ok(None)
                    } else {
                        Err(ConfigFault::NoAction(from))
                    },
                }
            },
        }
    }
}

fn lower_bind(node: &Node, os: &str) -> (r: Result<Option<(Combo, Vec<Step>)>, ConfigError>)
    ensures
        match r {
            Ok(Some(b)) => bind_of(node@, os@) == Ok::<
                Option<(ComboView, Seq<StepView>)>,
                ConfigFault,
            >(Some((b.0@, step_views(b.1@)))),
            Ok(None) => bind_of(node@, os@) == Ok::<
                Option<(ComboView, Seq<StepView>)>,
                ConfigFault,
            >(None),
            Err(e) => bind_of(node@, os@) == Err::<
                Option<(ComboView, Seq<StepView>)>,
                ConfigFault,
            >(e@),
        },
{
    proof {
        lemma_node_children(*node);
    }
    if !same_text(node.name.as_str(), "bind") {
        return Err(
            ConfigError::UnexpectedNode {
                expected: owned("bind"),
                found: owned(node.name.as_str()),
            },
        );
    }
    let from = match node.first_arg() {
        Some(from) => from,
        None => return Err(ConfigError::MissingTrigger),
    };
    let trigger = match Combo::parse(from) {
        Ok(trigger) => trigger,
        Err(e) => return Err(ConfigError::BadCombo(e)),
    };
    if node.prop_str("to").is_some() || node.prop_str("mark-to").is_some() {
        return Err(ConfigError::ShorthandRemoved(owned(from)));
    }
    // A step that resolves to `None` lists only other OSes and is left out. The
    // binding still applies here as long as some other step remains, so a single
    // bind can pair e.g. a Windows `keys` with a Linux `exec`.

    let steps = match lower_steps(&node.children, os) {
        Ok(steps) => steps,
        Err(e) => return Err(e),
    };
    assert(step_views(steps@).len() == steps@.len());
    assert(node@.children.len() == node.children@.len());
    if steps.len() > 0 {
        Ok(Some((trigger, steps)))
    } else if node.children.len() > 0 {
        // Every step was for another OS: this binding doesn't apply here.
        Ok(None)
    } else {
        Err(ConfigError::NoAction(owned(from)))
    }
}

/// The bindings of the nodes from `i` on, after those in `done`; a later binding
/// of a trigger takes the place of an earlier one.
pub open spec fn binds_from(
    nodes: Seq<NodeView>,
    os: Seq<char>,
    i: int,
    done: Map<ComboView, Seq<StepView>>,
) -> Result<Map<ComboView, Seq<StepView>>, ConfigFault>
    decreases nodes.len() - i,
{
    if i >= nodes.len() {
        Ok(done)
    } else {
        match bind_of(nodes[i], os) {
            Err(e) => Err(e),
            Ok(None) => binds_from(nodes, os, i + 1, done),
            Ok(Some((trigger, steps))) => binds_from(nodes, os, i + 1, done.insert(trigger, steps)),
        }
    }
}

fn lower_binds(nodes: &Vec<Node>, os: &str) -> (r: Result<AssocMap<Combo, Vec<Step>>, ConfigError>)
    ensures
        match r {
            Ok(binds) => binds_from(node_views(nodes@), os@, 0, Map::empty()) == Ok::<
                Map<ComboView, Seq<StepView>>,
                ConfigFault,
            >(binding_views(binds@)),
            Err(e) => binds_from(node_views(nodes@), os@, 0, Map::empty()) == Err::<
                Map<ComboView, Seq<StepView>>,
                ConfigFault,
            >(e@),
        },
{
    let ghost all = node_views(nodes@);
    let mut binds: AssocMap<Combo, Vec<Step>> = AssocMap::new();
    let mut i: usize = 0;
    assert(binding_views(binds@) =~= Map::empty());
    while i < nodes.len()
        invariant
            i <= nodes@.len(),
            all == node_views(nodes@),
            binds_from(all, os@, 0, Map::empty()) == binds_from(
                all,
                os@,
                i as int,
                binding_views(binds@),
            ),
        decreases nodes@.len() - i,
    {
        assert(all[i as int] == nodes@[i as int]@);
        match lower_bind(&nodes[i], os) {
            Err(e) => return Err(e),
            Ok(None) => {},
            Ok(Some((trigger, steps))) => {
                let ghost before = binds@;
                binds.insert(trigger, steps);
                assert(binding_views(binds@) =~= binding_views(before).insert(
                    trigger@,
                    step_views(steps@),
                ));
            },
        }
        i = i + 1;
    }
    Ok(binds)
}

/// A `keymap` node.
pub open spec fn keymap_of(n: NodeView, os: Seq<char>) -> Result<KeymapView, ConfigFault> {
    match matcher_of(n) {
        Err(e) => Err(e),
        Ok(matcher) => match binds_from(n.children, os, 0, Map::empty()) {
            Err(e) => Err(e),
            Ok(bindings) => Ok(
                KeymapView {
                    name: match n.prop("name"@) {
                        Some(name) => name,
                        None => Seq::empty(),
                    },
                    matcher,
                    bindings,
                },
            ),
        },
    }
}

fn lower_keymap(node: &Node, os: &str) -> (r: Result<KeymapRule, ConfigError>)
    ensures
        match r {
            Ok(rule) => keymap_of(node@, os@) == Ok::<KeymapView, ConfigFault>(rule@),
            Err(e) => keymap_of(node@, os@) == Err::<KeymapView, ConfigFault>(e@),
        },
{
    proof {
        lemma_node_children(*node);
    }
    let matcher = match build_matcher(node) {
        Ok(m) => m,
        Err(e) => return Err(e),
    };
    let name = match node.prop_str("name") {
        Some(name) => owned(name),
        None => String::new(),
    };
    match lower_binds(&node.children, os) {
        Ok(bindings) => {
            let rule = KeymapRule { name, matcher, bindings };
            assert(node@.prop("name"@) is None ==> rule@.name =~= Seq::empty());
            Ok(rule)
        },
        Err(e) => Err(e),
    }
}

// === Modmaps ===

/// A `map` node of a modmap.
pub open spec fn modmap_entry(n: NodeView) -> Result<(Key, Key), ConfigFault> {
    if n.name != "map"@ {
        Err(misnamed(n, "map"@))
    } else {
        match (required_key(n, "from"@), required_key(n, "to"@)) {
            (Err(e), _) => Err(e),
            (_, Err(e)) => Err(e),
            (Ok(from), Ok(to)) => Ok((from, to)),
        }
    }
}

/// The key pairs of the nodes from `i` on, put over those in `done`.
pub open spec fn modmap_from(nodes: Seq<NodeView>, i: int, done: Map<Key, Key>) -> Result<
    Map<Key, Key>,
    ConfigFault,
>
    decreases nodes.len() - i,
{
    if i >= nodes.len() {
        Ok(done)
    } else {
        match modmap_entry(nodes[i]) {
            Err(e) => Err(e),
            Ok((from, to)) => modmap_from(nodes, i + 1, done.insert(from, to)),
        }
    }
}

fn wrong_name(node: &Node, expected: &str) -> (r: ConfigError)
    ensures
        r@ == misnamed(node@, expected@),
{
    proof {
        lemma_node_children(*node);
    }
    ConfigError::UnexpectedNode { expected: owned(expected), found: owned(node.name.as_str()) }
}

fn lower_modmap_entry(node: &Node) -> (r: Result<(Key, Key), ConfigError>)
    ensures
        result_view(r) == modmap_entry(node@),
{
    proof {
        lemma_node_children(*node);
    }
    if !same_text(node.name.as_str(), "map") {
        return Err(wrong_name(node, "map"));
    }
    let from = match key_required(node, "from") {
        Ok(key) => key,
        Err(e) => return Err(e),
    };
    let to = match key_required(node, "to") {
        Ok(key) => key,
        Err(e) => return Err(e),
    };
    Ok((from, to))
}

/// Puts the pairs of a `modmap` node into the map; on a fault the map holds those
/// that come before it.
fn lower_modmap(nodes: &Vec<Node>, map: &mut AssocMap<Key, Key>) -> (r: Result<(), ConfigError>)
    ensures
        match r {
            Ok(_) => modmap_from(node_views(nodes@), 0, old(map)@) == Ok::<
                Map<Key, Key>,
                ConfigFault,
            >(final(map)@),
            Err(e) => modmap_from(node_views(nodes@), 0, old(map)@) == Err::<
                Map<Key, Key>,
                ConfigFault,
            >(e@),
        },
{
    let ghost all = node_views(nodes@);
    let mut i: usize = 0;
    while i < nodes.len()
        invariant
            i <= nodes@.len(),
            all == node_views(nodes@),
            modmap_from(all, 0, old(map)@) == modmap_from(all, i as int, map@),
        decreases nodes@.len() - i,
    {
        assert(all[i as int] == nodes@[i as int]@);
        match lower_modmap_entry(&nodes[i]) {
            Err(e) => return Err(e),
            Ok((from, to)) => {
                map.insert(from, to);
            },
        }
        i = i + 1;
    }
    Ok(())
}

/// A `map` node of a tap-hold rule.
pub open spec fn tap_hold_entry(n: NodeView) -> Result<(Key, (Key, Modifier)), ConfigFault> {
    if n.name != "map"@ {
        Err(misnamed(n, "map"@))
    } else {
        match (required_key(n, "key"@), required_key(n, "tap"@), required_key(n, "hold"@)) {
            (Err(e), _, _) => Err(e),
            (_, Err(e), _) => Err(e),
            (_, _, Err(e)) => Err(e),
            (Ok(key), Ok(tap), Ok(hold)) => match hold.spec_modifier() {
                Some(m) => Ok((key, (tap, m))),
                None => Err(ConfigFault::HoldNotModifier(hold)),
            },
        }
    }
}

/// The tap-hold keys of the nodes from `i` on, put over those in `done`.
pub open spec fn tap_holds_from(
    nodes: Seq<NodeView>,
    i: int,
    done: Map<Key, (Key, Modifier)>,
) -> Result<Map<Key, (Key, Modifier)>, ConfigFault>
    decreases nodes.len() - i,
{
    if i >= nodes.len() {
        Ok(done)
    } else {
        match tap_hold_entry(nodes[i]) {
            Err(e) => Err(e),
            Ok((key, target)) => tap_holds_from(nodes, i + 1, done.insert(key, target)),
        }
    }
}

fn lower_tap_hold_entry(node: &Node) -> (r: Result<(Key, (Key, Modifier)), ConfigError>)
    ensures
        result_view(r) == tap_hold_entry(node@),
{
    proof {
        lemma_node_children(*node);
    }
    if !same_text(node.name.as_str(), "map") {
        return Err(wrong_name(node, "map"));
    }
    let key = match key_required(node, "key") {
        Ok(key) => key,
        Err(e) => return Err(e),
    };
    let tap = match key_required(node, "tap") {
        Ok(key) => key,
        Err(e) => return Err(e),
    };
    let hold = match key_required(node, "hold") {
        Ok(key) => key,
        Err(e) => return Err(e),
    };
    match hold.as_modifier() {
        Some(m) => Ok((key, (tap, m))),
        None => Err(ConfigError::HoldNotModifier(hold)),
    }
}

/// A `multipurpose-modmap` node.
pub open spec fn multipurpose_of(n: NodeView) -> Result<MultipurposeView, ConfigFault> {
    match matcher_of(n) {
        Err(e) => Err(e),
        Ok(matcher) => match tap_holds_from(n.children, 0, Map::empty()) {
            Err(e) => Err(e),
            Ok(map) => Ok(MultipurposeView { matcher, map }),
        },
    }
}

fn lower_multipurpose(node: &Node) -> (r: Result<MultipurposeRule, ConfigError>)
    ensures
        match r {
            Ok(rule) => multipurpose_of(node@) == Ok::<MultipurposeView, ConfigFault>(rule@),
            Err(e) => multipurpose_of(node@) == Err::<MultipurposeView, ConfigFault>(e@),
        },
{
    proof {
        lemma_node_children(*node);
    }
    let matcher = match build_matcher(node) {
        Ok(m) => m,
        Err(e) => return Err(e),
    };
    let nodes = &node.children;
    let ghost all = node_views(nodes@);
    let mut map: AssocMap<Key, (Key, Modifier)> = AssocMap::new();
    let mut i: usize = 0;
    while i < nodes.len()
        invariant
            i <= nodes@.len(),
            all == node_views(nodes@),
            all == node@.children,
            matcher_of(node@) == Ok::<MatcherView, ConfigFault>(matcher@),
            tap_holds_from(all, 0, Map::empty()) == tap_holds_from(all, i as int, map@),
        decreases nodes@.len() - i,
    {
        assert(all[i as int] == nodes@[i as int]@);
        match lower_tap_hold_entry(&nodes[i]) {
            Err(e) => return Err(e),
            Ok((key, target)) => {
                map.insert(key, target);
            },
        }
        i = i + 1;
    }
    Ok(MultipurposeRule { matcher, map })
}

// === Documents ===

/// The configuration that says nothing.
pub open spec fn empty_config() -> ConfigView {
    ConfigView {
        modmap: Map::empty(),
        multipurpose: Seq::empty(),
        keymaps: Seq::empty(),
        pass_through: Seq::empty(),
    }
}

/// A top-level node, added to a configuration.
pub open spec fn with_node(config: ConfigView, n: NodeView, os: Seq<char>) -> Result<
    ConfigView,
    ConfigFault,
> {
    if n.name == "settings"@ {
        Ok(config)
    } else if n.name == "modmap"@ {
        match modmap_from(n.children, 0, config.modmap) {
            Ok(modmap) => Ok(ConfigView { modmap, ..config }),
            Err(e) => Err(e),
        }
    } else if n.name == "multipurpose-modmap"@ {
        match multipurpose_of(n) {
            Ok(rule) => Ok(
                ConfigView { multipurpose: config.multipurpose.push(rule), ..config },
            ),
            Err(e) => Err(e),
        }
    } else if n.name == "keymap"@ {
        match keymap_of(n, os) {
            Ok(rule) => Ok(ConfigView { keymaps: config.keymaps.push(rule), ..config }),
            Err(e) => Err(e),
        }
    } else {
        Err(ConfigFault::UnknownTopLevel(n.name))
    }
}

/// The top-level nodes from `i` on, added to a configuration in order.
pub open spec fn config_from(nodes: Seq<NodeView>, os: Seq<char>, i: int, config: ConfigView) -> Result<
    ConfigView,
    ConfigFault,
>
    decreases nodes.len() - i,
{
    if i >= nodes.len() {
        Ok(config)
    } else {
        match with_node(config, nodes[i], os) {
            Err(e) => Err(e),
            Ok(next) => config_from(nodes, os, i + 1, next),
        }
    }
}

/// The configuration that a document is, on `os`.
pub open spec fn config_of(nodes: Seq<NodeView>, os: Seq<char>) -> Result<ConfigView, ConfigFault> {
    config_from(nodes, os, 0, empty_config())
}

/// What a lowered configuration says.
pub open spec fn config_result(r: Result<Config, ConfigError>) -> Result<ConfigView, ConfigFault> {
    match r {
        Ok(config) => Ok(config@),
        Err(e) => Err(e@),
    }
}

fn add_node(config: &mut Config, node: &Node, os: &str) -> (r: Result<(), ConfigError>)
    ensures
        match r {
            Ok(_) => with_node(old(config)@, node@, os@) == Ok::<ConfigView, ConfigFault>(
                final(config)@,
            ),
            Err(e) => with_node(old(config)@, node@, os@) == Err::<ConfigView, ConfigFault>(e@),
        },
{
    proof {
        lemma_node_children(*node);
    }
    let name = node.name.as_str();
    if same_text(name, "settings") {
        // `timeout` is reserved for future tap-hold timing; the engine currently
        // resolves tap-vs-hold structurally, so it is unused.
        Ok(())
    } else if same_text(name, "modmap") {
        match lower_modmap(&node.children, &mut config.modmap) {
            Ok(_) => Ok(()),
            Err(e) => Err(e),
        }
    } else if same_text(name, "multipurpose-modmap") {
        match lower_multipurpose(node) {
            Ok(rule) => {
                config.multipurpose.push(rule);
                assert(multipurpose_views(config.multipurpose@) =~= old(
                    config,
                )@.multipurpose.push(rule@));
                Ok(())
            },
            Err(e) => Err(e),
        }
    } else if same_text(name, "keymap") {
        match lower_keymap(node, os) {
            Ok(rule) => {
                config.keymaps.push(rule);
                assert(keymap_views(config.keymaps@) =~= old(config)@.keymaps.push(rule@));
                Ok(())
            },
            Err(e) => Err(e),
        }
    } else {
        Err(ConfigError::UnknownTopLevel(owned(name)))
    }
}

/// Lower a document into a runtime [`Config`] for the operating system `os`
/// (`linux`, `windows`, `macos`, ...).
pub fn lower(nodes: &Vec<Node>, os: &str) -> (r: Result<Config, ConfigError>)
    ensures
        config_result(r) == config_of(node_views(nodes@), os@),
{
    let ghost all = node_views(nodes@);
    let mut config = Config::default();
    let mut i: usize = 0;
    while i < nodes.len()
        invariant
            i <= nodes@.len(),
            all == node_views(nodes@),
            config_of(all, os@) == config_from(all, os@, i as int, config@),
        decreases nodes@.len() - i,
    {
        assert(all[i as int] == nodes@[i as int]@);
        match add_node(&mut config, &nodes[i], os) {
            Err(e) => return Err(e),
            Ok(_) => {},
        }
        i = i + 1;
    }
    Ok(config)
}

/// The configuration a text stands for.
pub open spec fn loaded(text: Seq<char>, os: Seq<char>) -> Result<ConfigView, ConfigFault> {
    match kdl_nodes(text) {
        Some(nodes) => config_of(nodes, os),
        None => Err(ConfigFault::Syntax),
    }
}

/// Read KDL text and lower it into a runtime [`Config`] for `os`.
pub fn load(text: &str, os: &str) -> (r: Result<Config, ConfigError>)
    ensures
        config_result(r) == loaded(text@, os@),
{
    match read_kdl(text) {
        Some(nodes) => lower(&nodes, os),
        None => Err(ConfigError::Syntax),
    }
}

// === Laws ===

/// A document is lowered node by node, in order: what comes first is not undone by
/// what follows, and the first fault is the answer.
pub proof fn documents_lower_in_order(a: Seq<NodeView>, b: Seq<NodeView>, os: Seq<char>)
    ensures
        match config_of(a, os) {
            Err(e) => config_of(a + b, os) == Err::<ConfigView, ConfigFault>(e),
            Ok(config) => config_of(a + b, os) == config_from(b, os, 0, config),
        },
{
    lemma_lower_append(a, b, os, 0, empty_config());
}

proof fn lemma_lower_append(
    a: Seq<NodeView>,
    b: Seq<NodeView>,
    os: Seq<char>,
    i: int,
    config: ConfigView,
)
    requires
        0 <= i <= a.len(),
    ensures
        match config_from(a, os, i, config) {
            Err(e) => config_from(a + b, os, i, config) == Err::<ConfigView, ConfigFault>(e),
            Ok(next) => config_from(a + b, os, i, config) == config_from(b, os, 0, next),
        },
    decreases a.len() - i,
{
    if i < a.len() {
        assert((a + b)[i] == a[i]);
        match with_node(config, a[i], os) {
            Ok(next) => lemma_lower_append(a, b, os, i + 1, next),
            Err(_) => {},
        }
    } else {
        lemma_lower_tail(a, b, os, 0, config);
    }
}

proof fn lemma_lower_tail(
    a: Seq<NodeView>,
    b: Seq<NodeView>,
    os: Seq<char>,
    i: int,
    config: ConfigView,
)
    requires
        0 <= i <= b.len(),
    ensures
        config_from(a + b, os, a.len() + i, config) == config_from(b, os, i, config),
    decreases b.len() - i,
{
    if i < b.len() {
        assert((a + b)[a.len() + i] == b[i]);
        match with_node(config, b[i], os) {
            Ok(next) => lemma_lower_tail(a, b, os, i + 1, next),
            Err(_) => {},
        }
    }
}

/// A step's target for an OS: the property for that OS wins, else the argument,
/// on every OS.
pub proof fn os_targets_win(n: NodeView, os: Seq<char>)
    ensures
        n.prop(os) matches Some(target) ==> target_for(n, os) == Ok::<
            Option<Seq<char>>,
            ConfigFault,
        >(Some(target)),
        n.prop(os) is None && n.arg() is Some ==> target_for(n, os) == Ok::<
            Option<Seq<char>>,
            ConfigFault,
        >(n.arg()),
{
}

} // verus!

//! Camera controls: what a camera has, what a write amounts to, and how a control is found.
use vstd::arithmetic::{div_mod, mul};
use vstd::prelude::*;
use vstd::string::*;

use crate::controls::cid;
use crate::text;

verus! {

/// `V4L2_CTRL_FLAG_INACTIVE` and `V4L2_CTRL_FLAG_READ_ONLY`.
pub const FLAGS_INACTIVE: u32 = 0x0014;

/// What a control holds.
#[derive(Debug, Clone, Copy, PartialEq, Eq, Structural)]
pub enum ControlKind {
    Integer,
    Boolean,
    Menu,
    Button,
    Integer64,
    CtrlClass,
    Text,
    Bitmask,
    IntegerMenu,
    Compound,
}

/// A choice in a menu.
#[derive(Debug, Clone)]
pub enum MenuItem {
    Name(String),
    Value(i64),
}

/// A control, as the driver describes it.
#[derive(Debug, Clone)]
pub struct ControlDescription {
    pub id: u32,
    pub kind: ControlKind,
    pub name: String,
    pub minimum: i64,
    pub maximum: i64,
    pub step: u64,
    pub default: i64,
    pub flags: u32,
    /// The choices of a menu.
    pub items: Option<Vec<(u32, MenuItem)>>,
}

/// One camera control that can be shown and set.
#[derive(Debug, Clone, PartialEq, Eq)]
pub struct Setting {
    pub id: u32,
    pub name: String,
    pub min: i64,
    pub max: i64,
    pub step: i64,
    pub default: i64,
    pub boolean: bool,
    /// A menu of named choices; the value is the index.
    pub menu: Vec<(u32, String)>,
    /// Currently ignored by the driver (focus while autofocus is on) or read-only.
    pub inactive: bool,
}

/// The value of a control.
#[derive(Debug, Clone)]
pub enum ControlValue {
    Integer(i64),
    Boolean(bool),
    /// Anything but a single number, in words.
    Other(String),
}

/// A value to write.
#[derive(Debug, Clone, Copy, PartialEq, Eq, Structural)]
pub enum Scalar {
    Integer(i64),
    Boolean(bool),
}

/// A write of one control.
#[derive(Debug, Clone, Copy, PartialEq, Eq, Structural)]
pub struct ControlWrite {
    pub id: u32,
    pub value: Scalar,
}

/// Why a control cannot be read or set.
#[derive(Debug, Clone)]
pub enum ControlError {
    NotScalar { id: u32, value: String },
    NoFocus,
}

impl ControlError {
    pub open spec fn message(self) -> Seq<char> {
        match self {
            ControlError::NotScalar { id, value } => "control 0x"@ + text::hexadecimal(id as nat)
                + " has a non-scalar value "@ + value@,
            ControlError::NoFocus => "camera has no focus control"@,
        }
    }

    /// The error in words.
    pub fn to_string(&self) -> (r: String)
        ensures
            r@ == self.message(),
    {
        match self {
            ControlError::NotScalar { id, value } => {
                let mut out = "control 0x".to_owned();
                text::append_hexadecimal(&mut out, *id as u64);
                out.append(" has a non-scalar value ");
                out.append(value.as_str());
                out
            },
            ControlError::NoFocus => "camera has no focus control".to_owned(),
        }
    }
}

impl MenuItem {
    pub open spec fn label(self) -> Seq<char> {
        match self {
            MenuItem::Name(name) => name@,
            MenuItem::Value(value) => text::signed_decimal(value as int),
        }
    }

    /// The choice in words.
    pub fn to_string(&self) -> (r: String)
        ensures
            r@ == self.label(),
    {
        match self {
            MenuItem::Name(name) => name.clone(),
            MenuItem::Value(value) => {
                let mut out = String::new();
                text::append_signed(&mut out, *value);
                proof {
                    assert(out@ =~= text::signed_decimal(*value as int));
                }
                out
            },
        }
    }
}

/// A control that holds a number: integers, switches and menus.
pub open spec fn is_setting(kind: ControlKind) -> bool {
    ||| kind == ControlKind::Integer
    ||| kind == ControlKind::Boolean
    ||| kind == ControlKind::Menu
    ||| kind == ControlKind::IntegerMenu
}

/// The step of a setting: that of the control as a signed number, at least one.
pub open spec fn step_of(step: u64) -> i64 {
    if 1 <= step <= i64::MAX {
        step as i64
    } else {
        1
    }
}

/// `menu` is these choices in words; no choices make an empty menu.
pub open spec fn menu_of(menu: Seq<(u32, String)>, items: Option<Vec<(u32, MenuItem)>>) -> bool {
    match items {
        Some(items) => {
            &&& menu.len() == items.len()
            &&& forall|i: int|
                0 <= i < menu.len() ==> (#[trigger] menu[i]).0 == items[i].0 && menu[i].1@
                    == items[i].1.label()
        },
        None => menu.len() == 0,
    }
}

/// `setting` is what the driver describes.
pub open spec fn setting_of(setting: Setting, d: ControlDescription) -> bool {
    &&& setting.id == d.id
    &&& setting.name@ == d.name@
    &&& setting.min == d.minimum
    &&& setting.max == d.maximum
    &&& setting.step == step_of(d.step)
    &&& setting.default == d.default
    &&& setting.boolean == (d.kind == ControlKind::Boolean)
    &&& menu_of(setting.menu@, d.items)
    &&& setting.inactive == (d.flags & FLAGS_INACTIVE != 0)
}

/// The controls that hold a number.
pub open spec fn listed(descriptions: Seq<ControlDescription>) -> Seq<ControlDescription> {
    descriptions.filter(|d: ControlDescription| is_setting(d.kind))
}

fn menu_in_words(items: &Option<Vec<(u32, MenuItem)>>) -> (r: Vec<(u32, String)>)
    ensures
        menu_of(r@, *items),
{
    let mut menu: Vec<(u32, String)> = Vec::new();
    if let Some(items) = items {
        let mut i: usize = 0;
        while i < items.len()
            invariant
                i <= items.len(),
                menu.len() == i,
                forall|k: int|
                    0 <= k < i ==> (#[trigger] menu@[k]).0 == items[k].0 && menu@[k].1@
                        == items[k].1.label(),
            decreases items.len() - i,
        {
            menu.push((items[i].0, items[i].1.to_string()));
            i = i + 1;
        }
    }
    menu
}

fn to_setting(d: &ControlDescription) -> (r: Setting)
    ensures
        setting_of(r, *d),
{
    let step: i64 = if 1 <= d.step && d.step <= 0x7fff_ffff_ffff_ffff {
        d.step as i64
    } else {
        1
    };
    Setting {
        id: d.id,
        name: d.name.clone(),
        min: d.minimum,
        max: d.maximum,
        step,
        default: d.default,
        boolean: d.kind == ControlKind::Boolean,
        menu: menu_in_words(&d.items),
        inactive: d.flags & FLAGS_INACTIVE != 0,
    }
}

/// Every integer, boolean and menu control the camera exposes, in driver order.
pub fn settings(descriptions: &Vec<ControlDescription>) -> (r: Vec<Setting>)
    ensures
        r.len() == listed(descriptions@).len(),
        forall|i: int|
            0 <= i < r.len() ==> setting_of(#[trigger] r[i], listed(descriptions@)[i]),
{
    let mut out: Vec<Setting> = Vec::new();
    let mut i: usize = 0;
    proof {
        reveal(Seq::filter);
        assert(listed(descriptions@.take(0)) =~= Seq::empty());
    }
    while i < descriptions.len()
        invariant
            i <= descriptions.len(),
            out.len() == listed(descriptions@.take(i as int)).len(),
            forall|k: int|
                0 <= k < out.len() ==> setting_of(
                    #[trigger] out[k],
                    listed(descriptions@.take(i as int))[k],
                ),
        decreases descriptions.len() - i,
    {
        let ghost before = out@;
        proof {
            reveal(Seq::filter);
            assert(descriptions@.take(i + 1).drop_last() =~= descriptions@.take(i as int));
        }
        let d = &descriptions[i];
        if d.kind == ControlKind::Integer || d.kind == ControlKind::Boolean || d.kind
            == ControlKind::Menu || d.kind == ControlKind::IntegerMenu {
            out.push(to_setting(d));
        }
        proof {
            assert forall|k: int| 0 <= k < out.len() implies setting_of(
                #[trigger] out[k],
                listed(descriptions@.take(i + 1))[k],
            ) by {
                if k < before.len() {
                    assert(out[k] == before[k]);
                }
            }
        }
        i = i + 1;
    }
    proof {
        assert(descriptions@.take(descriptions.len() as int) =~= descriptions@);
    }
    out
}

/// What was read of a control, as a number. A control that holds anything but a single number
/// cannot be read.
pub fn get_setting(id: u32, value: ControlValue) -> (r: Result<i64, ControlError>)
    ensures
        match value {
            ControlValue::Integer(v) => r == Ok::<i64, ControlError>(v),
            ControlValue::Boolean(b) => r == Ok::<i64, ControlError>(
                if b {
                    1
                } else {
                    0
                },
            ),
            ControlValue::Other(words) => r == Err::<i64, ControlError>(
                ControlError::NotScalar { id, value: words },
            ),
        },
{
    match value {
        ControlValue::Integer(v) => Ok(v),
        ControlValue::Boolean(b) => Ok(
            if b {
                1
            } else {
                0
            },
        ),
        ControlValue::Other(words) => Err(ControlError::NotScalar { id, value: words }),
    }
}

impl Setting {
    /// A value that the range of the setting holds.
    pub open spec fn clamped(self, value: i64) -> i64 {
        if value < self.min {
            self.min
        } else if value > self.max {
            self.max
        } else {
            value
        }
    }

    /// The value clamped to the range and snapped to the step, downwards.
    pub open spec fn snapped(self, value: i64) -> int {
        if self.step > 1 {
            self.min + (self.clamped(value) - self.min) / self.step as int * self.step
        } else {
            self.clamped(value) as int
        }
    }

    /// The range is not empty, and its width can be computed where steps are counted.
    pub open spec fn settable(self, value: i64) -> bool {
        &&& self.min <= self.max
        &&& self.step > 1 ==> self.clamped(value) - self.min <= i64::MAX
    }

    /// What is written for a value.
    pub open spec fn write_of(self, value: i64) -> ControlWrite {
        ControlWrite {
            id: self.id,
            value: if self.boolean {
                Scalar::Boolean(self.snapped(value) != 0)
            } else {
                Scalar::Integer(self.snapped(value) as i64)
            },
        }
    }
}

/// What to write for a value, clamped to the range of the setting and snapped to its step, and
/// the number that comes of it.
pub fn set_setting(setting: &Setting, value: i64) -> (r: (ControlWrite, i64))
    requires
        setting.settable(value),
    ensures
        r.0 == setting.write_of(value),
        r.1 == setting.snapped(value),
{
    let clamped: i64 = if value < setting.min {
        setting.min
    } else if value > setting.max {
        setting.max
    } else {
        value
    };
    proof {
        if setting.step > 1 {
            snapped_value_fits(*setting, value);
        }
    }
    let stepped: i64 = if setting.step > 1 {
        setting.min + ((clamped - setting.min) / setting.step) * setting.step
    } else {
        clamped
    };
    let value = if setting.boolean {
        Scalar::Boolean(stepped != 0)
    } else {
        Scalar::Integer(stepped)
    };
    (ControlWrite { id: setting.id, value }, stepped)
}

/// What is written fits: it is in the range of the setting, a whole number of steps above its
/// lower end, and less than a step below the wanted value.
pub proof fn snapped_value_fits(setting: Setting, value: i64)
    requires
        setting.min <= setting.max,
    ensures
        setting.min <= setting.snapped(value) <= setting.clamped(value) <= setting.max,
        setting.step > 1 ==> (setting.snapped(value) - setting.min) % (setting.step as int) == 0,
        setting.step > 1 ==> setting.clamped(value) - setting.snapped(value) < setting.step,
        setting.step <= 1 ==> setting.snapped(value) == setting.clamped(value),
{
    if setting.step > 1 {
        let (d, s) = (setting.clamped(value) - setting.min, setting.step as int);
        div_mod::lemma_fundamental_div_mod(d, s);
        let q = d / s;
        mul::lemma_mul_is_commutative(q, s);
        div_mod::lemma_mod_multiples_basic(q, s);
        div_mod::lemma_div_pos_is_pos(d, s);
        assert(q * s >= 0) by (nonlinear_arith)
            requires
                q >= 0,
                s > 0,
        ;
    }
}

/// Writing what was written changes nothing.
pub proof fn writing_back_changes_nothing(setting: Setting, value: i64)
    requires
        setting.min <= setting.max,
    ensures
        setting.snapped(setting.snapped(value) as i64) == setting.snapped(value),
{
    snapped_value_fits(setting, value);
    if setting.step > 1 {
        let w = setting.snapped(value) as i64;
        let s = setting.step as int;
        div_mod::lemma_fundamental_div_mod(w - setting.min, s);
        mul::lemma_mul_is_commutative((w - setting.min) / s, s);
    }
}

/// A larger value is never written as a smaller one.
pub proof fn writing_keeps_the_order(setting: Setting, a: i64, b: i64)
    requires
        setting.min <= setting.max,
        a <= b,
    ensures
        setting.snapped(a) <= setting.snapped(b),
{
    if setting.step > 1 {
        let s = setting.step as int;
        let (x, y) = (setting.clamped(a) - setting.min, setting.clamped(b) - setting.min);
        div_mod::lemma_div_is_ordered(x, y, s);
        mul::lemma_mul_inequality(x / s, y / s, s);
    }
}

/// The first setting for which `p` holds is at `i`.
pub open spec fn first(all: Seq<Setting>, p: spec_fn(Setting) -> bool, i: int) -> bool {
    &&& 0 <= i < all.len()
    &&& p(all[i])
    &&& forall|j: int| 0 <= j < i ==> !p(#[trigger] all[j])
}

/// Whether `p` holds for any.
pub open spec fn any(all: Seq<Setting>, p: spec_fn(Setting) -> bool) -> bool {
    exists|i: int| 0 <= i < all.len() && p(#[trigger] all[i])
}

pub open spec fn has_id(id: u32) -> spec_fn(Setting) -> bool {
    |s: Setting| s.id == id
}

fn find_id(all: &[Setting], id: u32) -> (r: Option<usize>)
    ensures
        match r {
            Some(i) => first(all@, has_id(id), i as int),
            None => !any(all@, has_id(id)),
        },
{
    let mut i: usize = 0;
    while i < all.len()
        invariant
            i <= all.len(),
            forall|j: int| 0 <= j < i ==> !has_id(id)(#[trigger] all[j]),
        decreases all.len() - i,
    {
        if all[i].id == id {
            return Some(i);
        }
        i = i + 1;
    }
    None
}

/// The writes that set the focus, in order, and what comes of them.
#[derive(Debug)]
pub struct FocusPlan {
    pub writes: Vec<ControlWrite>,
    pub result: Result<i64, ControlError>,
}

/// The autofocus of these settings is switched off by these writes, before any other.
pub open spec fn autofocus_off(all: Seq<Setting>, writes: Seq<ControlWrite>) -> bool {
    if any(all, has_id(cid::FOCUS_AUTO)) {
        writes.len() > 0 && exists|i: int| #[trigger]
            first(all, has_id(cid::FOCUS_AUTO), i) && writes[0] == all[i].write_of(0)
    } else {
        true
    }
}

/// How many writes go to the autofocus.
pub open spec fn autofocus_writes(all: Seq<Setting>) -> nat {
    if any(all, has_id(cid::FOCUS_AUTO)) {
        1
    } else {
        0
    }
}

/// Sets manual focus. Continuous autofocus is switched off first, because the driver ignores the
/// focus while it is on. A camera without a focus control has its autofocus switched off all the
/// same.
pub fn set_focus(all: &[Setting], value: i64) -> (r: FocusPlan)
    requires
        forall|i: int| #[trigger]
            first(all@, has_id(cid::FOCUS_AUTO), i) ==> all[i].settable(0),
        forall|i: int| #[trigger]
            first(all@, has_id(cid::FOCUS_ABSOLUTE), i) ==> all[i].settable(value),
    ensures
        autofocus_off(all@, r.writes@),
        any(all@, has_id(cid::FOCUS_ABSOLUTE)) ==> {
            &&& r.writes.len() == autofocus_writes(all@) + 1
            &&& exists|i: int| #[trigger]
                first(all@, has_id(cid::FOCUS_ABSOLUTE), i) && r.writes@.last()
                    == all[i].write_of(value) && r.result == Ok::<i64, ControlError>(
                    all[i].snapped(value) as i64,
                )
        },
        !any(all@, has_id(cid::FOCUS_ABSOLUTE)) ==> {
            &&& r.writes.len() == autofocus_writes(all@)
            &&& r.result == Err::<i64, ControlError>(ControlError::NoFocus)
        },
{
    let mut writes: Vec<ControlWrite> = Vec::new();
    if let Some(i) = find_id(all, cid::FOCUS_AUTO) {
        let (off, _) = set_setting(&all[i], 0);
        writes.push(off);
        proof {
            assert(first(all@, has_id(cid::FOCUS_AUTO), i as int));
            assert(has_id(cid::FOCUS_AUTO)(all@[i as int]));
        }
    }
    match find_id(all, cid::FOCUS_ABSOLUTE) {
        Some(i) => {
            let (write, written) = set_setting(&all[i], value);
            proof {
                snapped_value_fits(all[i as int], value);
                assert(has_id(cid::FOCUS_ABSOLUTE)(all@[i as int]));
            }
            let ghost before = writes@;
            writes.push(write);
            proof {
                assert(before.len() > 0 ==> writes@[0] == before[0]);
                assert(first(all@, has_id(cid::FOCUS_ABSOLUTE), i as int));
            }
            FocusPlan { writes, result: Ok(written) }
        },
        None => FocusPlan { writes, result: Err(ControlError::NoFocus) },
    }
}

/// The id that a query spells in hexadecimal, behind "0x".
pub open spec fn queried_id(query: Seq<char>) -> Option<u32> {
    if query.len() >= 2 && query[0] == '0' && query[1] == 'x' {
        text::number(query.skip(2), 16)
    } else {
        None
    }
}

pub open spec fn by_id(query: Seq<char>) -> spec_fn(Setting) -> bool {
    |s: Setting| queried_id(query) == Some(s.id)
}

pub open spec fn by_name(query: Seq<char>) -> spec_fn(Setting) -> bool {
    |s: Setting| text::same_text(s.name@, query)
}

pub open spec fn by_prefix(query: Seq<char>) -> spec_fn(Setting) -> bool {
    |s: Setting| text::begins_with(s.name@, query)
}

/// Finds a control by hex id (`0x009a090a`), exact name (case-insensitive) or name prefix: the
/// first with that id, else the first with that name, else the first whose name begins so.
pub fn find_setting<'a>(settings: &'a [Setting], query: &str) -> (r: Option<&'a Setting>)
    ensures
        match r {
            Some(s) => exists|i: int|
                0 <= i < settings.len() && *s == #[trigger] settings[i] && {
                    if any(settings@, by_id(query@)) {
                        first(settings@, by_id(query@), i)
                    } else if any(settings@, by_name(query@)) {
                        first(settings@, by_name(query@), i)
                    } else {
                        first(settings@, by_prefix(query@), i)
                    }
                },
            None => !any(settings@, by_id(query@)) && !any(settings@, by_name(query@)) && !any(
                settings@,
                by_prefix(query@),
            ),
        },
{
    let wanted = text::characters(query);
    let id = if wanted.len() >= 2 && wanted[0] == '0' && wanted[1] == 'x' {
        text::parse(&wanted, 2, 16)
    } else {
        None
    };
    let mut named: Option<usize> = None;
    let mut beginning: Option<usize> = None;
    let mut i: usize = 0;
    while i < settings.len()
        invariant
            i <= settings.len(),
            wanted@ == query@,
            id == queried_id(query@),
            forall|j: int| 0 <= j < i ==> !by_id(query@)(#[trigger] settings[j]),
            match named {
                Some(n) => n < i && first(settings@, by_name(query@), n as int),
                None => forall|j: int| 0 <= j < i ==> !by_name(query@)(#[trigger] settings[j]),
            },
            match beginning {
                Some(n) => n < i && first(settings@, by_prefix(query@), n as int),
                None => forall|j: int| 0 <= j < i ==> !by_prefix(query@)(#[trigger] settings[j]),
            },
        decreases settings.len() - i,
    {
        let s = &settings[i];
        if let Some(id) = id {
            if id == s.id {
                proof {
                    assert(by_id(query@)(settings@[i as int]));
                    assert(first(settings@, by_id(query@), i as int));
                }
                return Some(s);
            }
        }
        let name = text::characters(s.name.as_str());
        if text::begins(&name, &wanted) {
            if named.is_none() && name.len() == wanted.len() {
                named = Some(i);
            }
            if beginning.is_none() {
                beginning = Some(i);
            }
        }
        i = i + 1;
    }
    proof {
        assert(!any(settings@, by_id(query@)));
    }
    match named {
        Some(n) => {
            proof {
                assert(by_name(query@)(settings@[n as int]));
            }
            Some(&settings[n])
        },
        None => match beginning {
            Some(n) => Some(&settings[n]),
            None => None,
        },
    }
}

/// What is written of a value, in terms of the value itself: the lower end of the range for one
/// below it; for one in the range a whole number of steps above the lower end, no more than the
/// value and less than a step below it; for one above the range what is written for its upper end.
/// A value that is a whole number of steps above the lower end is written unchanged.
pub proof fn what_is_written_of_a_value(setting: Setting, value: i64)
    requires
        setting.min <= setting.max,
    ensures
        value <= setting.min ==> setting.snapped(value) == setting.min,
        value >= setting.max ==> setting.snapped(value) == setting.snapped(setting.max),
        setting.min <= setting.snapped(value) <= setting.max,
        setting.min <= value <= setting.max ==> {
            &&& setting.snapped(value) <= value
            &&& setting.step >= 1 ==> value - setting.snapped(value) < setting.step
            &&& setting.step <= 1 ==> setting.snapped(value) == value
        },
        setting.step > 1 ==> (setting.snapped(value) - setting.min) % (setting.step as int) == 0,
        setting.min <= value <= setting.max && setting.step > 1 && (value - setting.min) % (
        setting.step as int) == 0 ==> setting.snapped(value) == value,
        setting.step > 1 ==> setting.max - setting.snapped(setting.max) < setting.step,
{
    snapped_value_fits(setting, value);
    snapped_value_fits(setting, setting.max);
    if setting.step > 1 {
        let s = setting.step as int;
        if setting.min <= value <= setting.max {
            div_mod::lemma_fundamental_div_mod(value - setting.min, s);
            mul::lemma_mul_is_commutative((value - setting.min) / s, s);
        }
        if value <= setting.min {
            div_mod::lemma_div_basics(s);
            mul::lemma_mul_basics(s);
        }
    }
}

/// A write goes to the setting's own control, and holds what comes of the value: as it is, or,
/// where the control is a switch, whether it is anything but zero.
pub proof fn a_write_holds_what_comes_of_the_value(setting: Setting, value: i64)
    requires
        setting.min <= setting.max,
    ensures
        setting.write_of(value).id == setting.id,
        !setting.boolean ==> setting.write_of(value).value == Scalar::Integer(
            setting.snapped(value) as i64,
        ),
        setting.boolean ==> setting.write_of(value).value == Scalar::Boolean(
            setting.snapped(value) != 0,
        ),
        setting.boolean && setting.min == 0 && setting.max == 1 && setting.step <= 1
            ==> setting.write_of(value).value == Scalar::Boolean(value >= 1),
{
    what_is_written_of_a_value(setting, value);
}

/// The controls that are listed are the integers, the switches and the menus of either kind; all of
/// them, in order, and no others.
pub proof fn which_controls_are_listed(
    descriptions: Seq<ControlDescription>,
    d: ControlDescription,
)
    ensures
        listed(Seq::<ControlDescription>::empty()).len() == 0,
        listed(descriptions.push(d)) == if d.kind is Integer || d.kind is Boolean || d.kind is Menu
            || d.kind is IntegerMenu {
            listed(descriptions).push(d)
        } else {
            listed(descriptions)
        },
{
    reveal(Seq::filter);
    assert(descriptions.push(d).drop_last() =~= descriptions);
}

/// What a setting is of a control: its own number, name, range and default; its step, or one where
/// it has none; a switch where the control is one; ignored where the driver says so, be it for now
/// or for good.
pub proof fn a_setting_is_what_the_driver_describes(setting: Setting, d: ControlDescription)
    requires
        setting_of(setting, d),
    ensures
        setting.id == d.id,
        setting.name@ == d.name@,
        setting.min == d.minimum,
        setting.max == d.maximum,
        setting.default == d.default,
        setting.step >= 1,
        1 <= d.step <= i64::MAX ==> setting.step == d.step,
        d.step == 0 || d.step > i64::MAX ==> setting.step == 1,
        setting.boolean <==> d.kind is Boolean,
        setting.inactive <==> d.flags & 0x10 != 0 || d.flags & 0x04 != 0,
        d.items is None ==> setting.menu@.len() == 0,
        d.items matches Some(items) ==> setting.menu@.len() == items@.len(),
{
    let f = d.flags;
    assert(f & 0x14 != 0 <==> f & 0x10 != 0 || f & 0x04 != 0) by (bit_vector);
}

/// A menu has the choices of the control: each with its number, and its name or its value in words.
pub proof fn a_menu_has_the_choices_of_the_control(
    setting: Setting,
    d: ControlDescription,
    items: Vec<(u32, MenuItem)>,
    i: int,
)
    requires
        setting_of(setting, d),
        d.items == Some(items),
        0 <= i < items@.len(),
    ensures
        setting.menu@[i].0 == items@[i].0,
        items@[i].1 matches MenuItem::Name(name) ==> setting.menu@[i].1@ == name@,
        items@[i].1 matches MenuItem::Value(v) ==> (v >= 0 ==> setting.menu@[i].1@
            == text::decimal(v as nat)),
        items@[i].1 matches MenuItem::Value(v) ==> (v < 0 ==> setting.menu@[i].1@ == seq!['-']
            + text::decimal((-v) as nat)),
{
    assert(setting.menu@[i].0 == items@[i].0);
}

/// To set the focus, autofocus is switched off first: the first write goes to its control and holds
/// nothing, where its range has nothing in it.
pub proof fn autofocus_is_switched_off(all: Seq<Setting>, writes: Seq<ControlWrite>, k: int)
    requires
        autofocus_off(all, writes),
        0 <= k < all.len(),
        all[k].id == 0x009a_090c,
        forall|j: int|
            0 <= j < all.len() && (#[trigger] all[j]).id == 0x009a_090c ==> all[j].min <= 0
                <= all[j].max && (all[j].step > 1 ==> all[j].min == 0),
    ensures
        writes.len() > 0,
        writes[0].id == 0x009a_090c,
        writes[0].value == Scalar::Integer(0) || writes[0].value == Scalar::Boolean(false),
        autofocus_writes(all) == 1,
{
    assert(has_id(cid::FOCUS_AUTO)(all[k]));
    assert(any(all, has_id(cid::FOCUS_AUTO)));
    let i = choose|i: int| #[trigger]
        first(all, has_id(cid::FOCUS_AUTO), i) && writes[0] == all[i].write_of(0);
    assert(all[i].id == 0x009a_090c);
    what_is_written_of_a_value(all[i], 0);
    a_write_holds_what_comes_of_the_value(all[i], 0);
}

/// A control is found by its number in hexadecimal, whatever it is called, and no other one is.
pub proof fn a_control_is_found_by_its_number(s: Setting, other: Setting)
    ensures
        by_id(seq!['0', 'x'] + text::hexadecimal(s.id as nat))(s),
        by_id(seq!['0', 'x'] + text::hexadecimal(s.id as nat))(other) ==> other.id == s.id,
{
    let h = text::hexadecimal(s.id as nat);
    let query = seq!['0', 'x'] + h;
    text::a_hexadecimal_reads_back(s.id as nat);
    assert(query.skip(2) =~= h);
}

/// A control is found by its own name, and by every beginning of it, in either case.
pub proof fn a_control_is_found_by_its_name(s: Setting, query: Seq<char>)
    ensures
        by_name(s.name@)(s),
        query.is_prefix_of(s.name@) ==> by_prefix(query)(s),
        by_name(query)(s) ==> by_prefix(query)(s) && query.len() == s.name@.len(),
        by_prefix(query)(s) && query.len() == s.name@.len() ==> by_name(query)(s),
{
    text::a_text_begins_with_its_head(s.name@, query, 0);
    text::a_text_begins_with_its_head(s.name@, s.name@, 0);
}

/// The first that suits comes before every other one that does, and there is one where any does.
pub proof fn the_first_comes_before_the_others(
    all: Seq<Setting>,
    p: spec_fn(Setting) -> bool,
    i: int,
    j: int,
)
    ensures
        first(all, p, i) && 0 <= j < all.len() && p(all[j]) ==> i <= j,
        first(all, p, i) ==> 0 <= i < all.len() && p(all[i]) && any(all, p),
        0 <= j < all.len() && p(all[j]) ==> any(all, p),
        all.len() == 0 ==> !any(all, p),
{
}

/// The words of an error name the control by its number and say what it holds.
pub proof fn an_error_names_the_control(id: u32, value: String)
    ensures
        value@.is_suffix_of((ControlError::NotScalar { id, value }).message()),
{
    let m = (ControlError::NotScalar { id, value }).message();
    assert(value@ =~= m.subrange(m.len() - value@.len(), m.len() as int));
}

} // verus!

//! Chord specifications: which modifiers, keys, controller buttons and
//! trigger states an operator must hold to fire an action.

use vstd::prelude::*;
use vstd::string::StringExecFns;
use crate::keys::{Key, KEY_RETURN, KEY_ESCAPE, KEY_S};

verus! {

/// A chord specification.
///
/// Each modifier flag is three-valued: `Some(true)` means the modifier
/// must be held, `Some(false)` that it must not be, `None` that it is
/// not looked at.  `key_option` together with `key` selects the
/// tri-state key rule:
///
/// | key_option | key = None                    | key = Some(k)                      |
/// | ---------- | ----------------------------- | ---------------------------------- |
/// | 0          | keys are not looked at        | k must be held                     |
/// | 1          | exactly one plain key held    | exactly one plain key held: k      |
/// | 2          | no plain key held             | k must not be held                 |
///
/// `controller_btn_option` and `controller_btn` apply the same table to
/// controller buttons, identified as (slot, button).  `trigger_l` and
/// `trigger_r` name a controller slot whose left or right trigger must
/// be away from rest.
#[derive(Copy, PartialEq, Debug)]
pub struct ShortCut {
    pub key_option: u8,
    pub key: Option<Key>,
    pub controller_btn_option: u8,
    pub controller_btn: Option<(u32, usize)>,
    pub ctrl: Option<bool>,
    pub alt: Option<bool>,
    pub shift: Option<bool>,
    pub tab: Option<bool>,
    pub windows: Option<bool>,
    pub mouse_l_button: Option<bool>,
    pub mouse_r_button: Option<bool>,
    pub mouse_m_button: Option<bool>,
    pub trigger_l: Option<u32>,
    pub trigger_r: Option<u32>,
}

impl Clone for ShortCut {
    /// A field-for-field copy.
    fn clone(&self) -> (r: Self)
        ensures
            r == *self,
    {
        *self
    }
}

/// A chord list that either triggers when any listed chord matches
/// (`Contains`) or when no listed chord matches (`Exclude`).
#[derive(PartialEq, Debug)]
pub enum ShortCuts {
    Contains(Vec<ShortCut>),
    Exclude(Vec<ShortCut>),
}

impl ShortCuts {
    /// The listed chords, whichever the variant.
    pub open spec fn chords(self) -> Seq<ShortCut> {
        match self {
            ShortCuts::Contains(v) => v@,
            ShortCuts::Exclude(v) => v@,
        }
    }

    /// True of the excluding variant, false of the containing one.
    pub open spec fn is_exclude(self) -> bool {
        self is Exclude
    }

    /// Every listed chord is well formed.
    pub open spec fn wf(self) -> bool {
        forall|i: int| 0 <= i < self.chords().len() ==> (#[trigger] self.chords()[i]).wf()
    }
}

impl Clone for ShortCuts {
    /// A copy that keeps the variant and the listed chords.
    fn clone(&self) -> (r: Self)
        ensures
            r.is_exclude() == self.is_exclude(),
            r.chords() == self.chords(),
    {
        match self {
            ShortCuts::Contains(v) => ShortCuts::Contains(duplicate_shortcuts(v)),
            ShortCuts::Exclude(v) => ShortCuts::Exclude(duplicate_shortcuts(v)),
        }
    }
}

/// Copies a chord list element by element.
fn duplicate_shortcuts(v: &Vec<ShortCut>) -> (r: Vec<ShortCut>)
    ensures
        r@ == v@,
{
    let mut r: Vec<ShortCut> = Vec::new();
    let mut i: usize = 0;
    while i < v.len()
        invariant
            i <= v@.len(),
            r@ == v@.subrange(0, i as int),
        decreases v@.len() - i,
    {
        r.push(v[i]);
        i += 1;
    }
    proof {
        assert(v@.subrange(0, v@.len() as int) == v@);
    }
    r
}

impl ShortCut {
    /// The trigger-held flags, where given, must name one of the four
    /// controller slots.
    pub open spec fn wf(self) -> bool {
        (self.trigger_l is Some ==> self.trigger_l->0 < 4) && (self.trigger_r is Some
            ==> self.trigger_r->0 < 4)
    }

    /// What `any` builds, as a specification value.
    pub open spec fn any_spec() -> ShortCut {
        ShortCut {
            key_option: 0u8,
            key: None::<Key>,
            controller_btn_option: 0u8,
            controller_btn: None::<(u32, usize)>,
            ctrl: None::<bool>,
            alt: None::<bool>,
            shift: None::<bool>,
            tab: None::<bool>,
            windows: None::<bool>,
            mouse_l_button: None::<bool>,
            mouse_r_button: None::<bool>,
            mouse_m_button: None::<bool>,
            trigger_l: None::<u32>,
            trigger_r: None::<u32>,
        }
    }

    /// The universal wildcard: nothing is looked at, so every pattern
    /// matches it.
    pub fn any() -> (r: Self)
        ensures
            r == ShortCut::any_spec(),
    {
        ShortCut {
            key_option: 0,
            key: None,
            controller_btn_option: 0,
            controller_btn: None,
            ctrl: None,
            alt: None,
            shift: None,
            tab: None,
            windows: None,
            mouse_l_button: None,
            mouse_r_button: None,
            mouse_m_button: None,
            trigger_l: None,
            trigger_r: None,
        }
    }

    /// Nothing at all may be held: no modifier, no mouse button, no
    /// plain key, no controller button.
    pub fn none_held() -> (r: Self)
        ensures
            r == (ShortCut {
                key_option: 2u8,
                key: None::<Key>,
                controller_btn_option: 2u8,
                controller_btn: None::<(u32, usize)>,
                ctrl: Some(false),
                alt: Some(false),
                shift: Some(false),
                tab: Some(false),
                windows: Some(false),
                mouse_l_button: Some(false),
                mouse_r_button: Some(false),
                mouse_m_button: Some(false),
                trigger_l: None::<u32>,
                trigger_r: None::<u32>,
            }),
    {
        ShortCut {
            key_option: 2,
            key: None,
            controller_btn_option: 2,
            controller_btn: None,
            ctrl: Some(false),
            alt: Some(false),
            shift: Some(false),
            tab: Some(false),
            windows: Some(false),
            mouse_l_button: Some(false),
            mouse_r_button: Some(false),
            mouse_m_button: Some(false),
            trigger_l: None,
            trigger_r: None,
        }
    }

    /// No plain key, controller button or mouse button may be held, but
    /// modifiers are not looked at.
    pub fn empty() -> (r: Self)
        ensures
            r == ShortCut::empty_spec(),
    {
        ShortCut {
            key_option: 2,
            key: None,
            controller_btn_option: 2,
            controller_btn: None,
            ctrl: None,
            alt: None,
            shift: None,
            tab: None,
            windows: None,
            mouse_l_button: Some(false),
            mouse_r_button: Some(false),
            mouse_m_button: Some(false),
            trigger_l: None,
            trigger_r: None,
        }
    }

    /// `key` with every modifier and mouse button required off.
    pub fn key(key: Key) -> (r: Self)
        ensures
            r == (ShortCut {
                key_option: 0u8,
                key: Some(key),
                controller_btn_option: 0u8,
                controller_btn: None::<(u32, usize)>,
                ctrl: Some(false),
                alt: Some(false),
                shift: Some(false),
                tab: Some(false),
                windows: Some(false),
                mouse_l_button: Some(false),
                mouse_r_button: Some(false),
                mouse_m_button: Some(false),
                trigger_l: None::<u32>,
                trigger_r: None::<u32>,
            }),
    {
        ShortCut {
            key_option: 0,
            key: Some(key),
            controller_btn_option: 0,
            controller_btn: None,
            ctrl: Some(false),
            alt: Some(false),
            shift: Some(false),
            tab: Some(false),
            windows: Some(false),
            mouse_l_button: Some(false),
            mouse_r_button: Some(false),
            mouse_m_button: Some(false),
            trigger_l: None,
            trigger_r: None,
        }
    }

    /// Alt and `key`, everything else required off.
    pub fn alt(key: Key) -> (r: Self)
        ensures
            r == (ShortCut { alt: Some(true), ..ShortCut::key_spec(key) }),
    {
        let mut r = Self::key(key);
        r.alt = Some(true);
        r
    }

    /// Control, alt and `key`, everything else required off.
    pub fn ctrl_alt(key: Key) -> (r: Self)
        ensures
            r == (ShortCut { ctrl: Some(true), alt: Some(true), ..ShortCut::key_spec(key) }),
    {
        let mut r = Self::key(key);
        r.ctrl = Some(true);
        r.alt = Some(true);
        r
    }

    /// Shift, alt and `key`, everything else required off.
    pub fn shift_alt(key: Key) -> (r: Self)
        ensures
            r == (ShortCut { shift: Some(true), alt: Some(true), ..ShortCut::key_spec(key) }),
    {
        let mut r = Self::key(key);
        r.shift = Some(true);
        r.alt = Some(true);
        r
    }

    /// What `key` builds but with the mouse buttons not looked at: the
    /// base of the bundled chord bindings.
    pub open spec fn chord_spec(key: Key) -> ShortCut {
        ShortCut {
            mouse_l_button: None::<bool>,
            mouse_r_button: None::<bool>,
            mouse_m_button: None::<bool>,
            ..ShortCut::key_spec(key)
        }
    }

    /// What `shift_enter` builds, as a specification value.
    pub open spec fn shift_enter_spec() -> ShortCut {
        ShortCut { shift: Some(true), ..ShortCut::chord_spec(Key(KEY_RETURN)) }
    }

    /// What `ctrl_shift_enter` builds, as a specification value.
    pub open spec fn ctrl_shift_enter_spec() -> ShortCut {
        ShortCut { ctrl: Some(true), shift: Some(true), ..ShortCut::chord_spec(Key(KEY_RETURN)) }
    }

    /// What `escape` builds, as a specification value.
    pub open spec fn escape_spec() -> ShortCut {
        ShortCut { ..ShortCut::chord_spec(Key(KEY_ESCAPE)) }
    }

    /// What `shift_escape` builds, as a specification value.
    pub open spec fn shift_escape_spec() -> ShortCut {
        ShortCut { shift: Some(true), ..ShortCut::chord_spec(Key(KEY_ESCAPE)) }
    }

    /// What `ctrl_escape` builds, as a specification value.
    pub open spec fn ctrl_escape_spec() -> ShortCut {
        ShortCut { ctrl: Some(true), ..ShortCut::chord_spec(Key(KEY_ESCAPE)) }
    }

    /// What `ctrl_enter` builds, as a specification value.
    pub open spec fn ctrl_enter_spec() -> ShortCut {
        ShortCut { ctrl: Some(true), ..ShortCut::chord_spec(Key(KEY_RETURN)) }
    }

    /// What `ctrl_right_s` builds, as a specification value.
    pub open spec fn ctrl_right_s_spec() -> ShortCut {
        ShortCut {
            ctrl: Some(true),
            shift: Some(true),
            mouse_r_button: Some(true),
            ..ShortCut::chord_spec(Key(KEY_S))
        }
    }

    /// What `empty` builds, as a specification value.
    pub open spec fn empty_spec() -> ShortCut {
        ShortCut {
            key_option: 2u8,
            controller_btn_option: 2u8,
            mouse_l_button: Some(false),
            mouse_r_button: Some(false),
            mouse_m_button: Some(false),
            ..ShortCut::any_spec()
        }
    }

    /// What `key` builds, as a specification value.
    pub open spec fn key_spec(key: Key) -> ShortCut {
        ShortCut {
            key_option: 0u8,
            key: Some(key),
            controller_btn_option: 0u8,
            controller_btn: None::<(u32, usize)>,
            ctrl: Some(false),
            alt: Some(false),
            shift: Some(false),
            tab: Some(false),
            windows: Some(false),
            mouse_l_button: Some(false),
            mouse_r_button: Some(false),
            mouse_m_button: Some(false),
            trigger_l: None::<u32>,
            trigger_r: None::<u32>,
        }
    }

    /// Shift and return: the default start-record binding.
    pub fn shift_enter() -> (r: Self)
        ensures
            r == ShortCut::shift_enter_spec(),
    {
        let mut r = Self::key(Key(KEY_RETURN));
        r.shift = Some(true);
        r.mouse_l_button = None;
        r.mouse_r_button = None;
        r.mouse_m_button = None;
        r
    }

    /// Control, shift and return: the default append-record binding.
    pub fn ctrl_shift_enter() -> (r: Self)
        ensures
            r == ShortCut::ctrl_shift_enter_spec(),
    {
        let mut r = Self::shift_enter();
        r.ctrl = Some(true);
        r
    }

    /// Escape alone: the default stop binding.
    pub fn escape() -> (r: Self)
        ensures
            r == ShortCut::escape_spec(),
    {
        let mut r = Self::key(Key(KEY_ESCAPE));
        r.mouse_l_button = None;
        r.mouse_r_button = None;
        r.mouse_m_button = None;
        r
    }

    /// Shift and escape: the default drop-record binding.
    pub fn shift_escape() -> (r: Self)
        ensures
            r == ShortCut::shift_escape_spec(),
    {
        let mut r = Self::escape();
        r.shift = Some(true);
        r
    }

    /// Control and escape.
    pub fn ctrl_escape() -> (r: Self)
        ensures
            r == ShortCut::ctrl_escape_spec(),
    {
        let mut r = Self::escape();
        r.ctrl = Some(true);
        r
    }

    /// Control and return: the default start-playback binding.
    pub fn ctrl_enter() -> (r: Self)
        ensures
            r == ShortCut::ctrl_enter_spec(),
    {
        let mut r = Self::key(Key(KEY_RETURN));
        r.ctrl = Some(true);
        r.mouse_l_button = None;
        r.mouse_r_button = None;
        r.mouse_m_button = None;
        r
    }

    /// Control, shift, the right mouse button and the letter S: the
    /// default save-records binding.
    pub fn ctrl_right_s() -> (r: Self)
        ensures
            r == ShortCut::ctrl_right_s_spec(),
    {
        let mut r = Self::key(Key(KEY_S));
        r.ctrl = Some(true);
        r.shift = Some(true);
        r.mouse_l_button = None;
        r.mouse_r_button = Some(true);
        r.mouse_m_button = None;
        r
    }
}


/// The decimal digit characters of `n`, most significant first.
pub open spec fn decimal_digits(n: nat) -> Seq<char>
    decreases n,
{
    if n < 10 {
        seq![digit_char(n)]
    } else {
        decimal_digits(n / 10) + seq![digit_char(n % 10)]
    }
}

/// The character of one decimal digit.
pub open spec fn digit_char(d: nat) -> char {
    if d == 0 {
        '0'
    } else if d == 1 {
        '1'
    } else if d == 2 {
        '2'
    } else if d == 3 {
        '3'
    } else if d == 4 {
        '4'
    } else if d == 5 {
        '5'
    } else if d == 6 {
        '6'
    } else if d == 7 {
        '7'
    } else if d == 8 {
        '8'
    } else {
        '9'
    }
}

/// One decimal digit as text.
fn digit_str(d: u64) -> (r: &'static str)
    requires
        d < 10,
    ensures
        r@ == seq![digit_char(d as nat)],
{
    if d == 0 {
        proof {
            reveal_strlit("0");
        }
        "0"
    } else if d == 1 {
        proof {
            reveal_strlit("1");
        }
        "1"
    } else if d == 2 {
        proof {
            reveal_strlit("2");
        }
        "2"
    } else if d == 3 {
        proof {
            reveal_strlit("3");
        }
        "3"
    } else if d == 4 {
        proof {
            reveal_strlit("4");
        }
        "4"
    } else if d == 5 {
        proof {
            reveal_strlit("5");
        }
        "5"
    } else if d == 6 {
        proof {
            reveal_strlit("6");
        }
        "6"
    } else if d == 7 {
        proof {
            reveal_strlit("7");
        }
        "7"
    } else if d == 8 {
        proof {
            reveal_strlit("8");
        }
        "8"
    } else {
        proof {
            reveal_strlit("9");
        }
        "9"
    }
}

/// Appends the decimal digits of `n`.
fn push_decimal(out: &mut String, n: u64)
    ensures
        final(out)@ == old(out)@ + decimal_digits(n as nat),
    decreases n,
{
    if n >= 10 {
        push_decimal(out, n / 10);
        out.append(digit_str(n % 10));
    } else {
        out.append(digit_str(n));
    }
}

/// What one three-valued flag contributes to a chord's description.
pub open spec fn flag_text(flag: Option<bool>, held: Seq<char>, off: Seq<char>) -> Seq<char> {
    match flag {
        Some(true) => held,
        Some(false) => off,
        None => Seq::empty(),
    }
}

/// What one trigger slot contributes: the label, the slot and ") + ".
pub open spec fn trigger_text(slot: Option<u32>, label: Seq<char>) -> Seq<char> {
    match slot {
        Some(v) => label + decimal_digits(v as nat) + ") + "@,
        None => Seq::empty(),
    }
}

/// The key cell of a chord's description.
pub open spec fn key_text(key_option: u8, key: Option<Key>) -> Seq<char> {
    match key {
        None => if key_option == 0 {
            "SkipKey"@
        } else if key_option == 1 {
            "AnyKey"@
        } else if key_option == 2 {
            "NoKey"@
        } else {
            "UnexpectedKey"@
        },
        Some(k) => if key_option == 0 {
            "Key("@ + decimal_digits(k.0 as nat) + ")"@
        } else if key_option == 1 {
            "Only.Key("@ + decimal_digits(k.0 as nat) + ")"@
        } else if key_option == 2 {
            "Not.Key("@ + decimal_digits(k.0 as nat) + ")"@
        } else {
            "UnexpectedKey"@
        },
    }
}

/// The controller-button cell of a chord's description.
pub open spec fn btn_text(btn_option: u8, btn: Option<(u32, usize)>) -> Seq<char> {
    match btn {
        None => if btn_option == 0 {
            " SkipCbt"@
        } else if btn_option == 1 {
            " AnyCbt"@
        } else if btn_option == 2 {
            " NoCbt"@
        } else {
            " UnexpectedCbt"@
        },
        Some(b) => if btn_option == 0 {
            "Cbt"@ + decimal_digits(b.1 as nat) + "("@ + decimal_digits(b.0 as nat) + ")"@
        } else if btn_option == 1 {
            "Only.Cbt"@ + decimal_digits(b.1 as nat) + "("@ + decimal_digits(b.0 as nat) + ")"@
        } else if btn_option == 2 {
            "Not.Cbt"@ + decimal_digits(b.1 as nat) + "("@ + decimal_digits(b.0 as nat) + ")"@
        } else {
            " UnexpectedCbt"@
        },
    }
}

/// A chord's whole description: the pinned flags, the held triggers, the
/// key cell, the controller-button cell.
pub open spec fn describe_spec(sc: ShortCut) -> Seq<char> {
    flags_text(sc) + trigger_text(sc.trigger_l, "TriggerL("@) + trigger_text(
        sc.trigger_r,
        "TriggerR("@,
    ) + key_text(sc.key_option, sc.key) + btn_text(sc.controller_btn_option, sc.controller_btn)
}

/// The first four flag cells of a chord's description.
pub open spec fn flags_text_a(sc: ShortCut) -> Seq<char> {
    flag_text(sc.ctrl, "Ctrl + "@, "!Ctrl + "@) + flag_text(sc.shift, "Shift + "@, "!Shift + "@)
        + flag_text(sc.alt, "Alt + "@, "!Alt + "@) + flag_text(sc.tab, "Tab + "@, "!Tab + "@)
}

/// The last four flag cells of a chord's description.
pub open spec fn flags_text_b(sc: ShortCut) -> Seq<char> {
    flag_text(sc.windows, "Windows + "@, "!Windows + "@) + flag_text(
        sc.mouse_l_button,
        "MouseLeft + "@,
        "!MouseLeft + "@,
    ) + flag_text(sc.mouse_r_button, "MouseRight + "@, "!MouseRight + "@) + flag_text(
        sc.mouse_m_button,
        "MouseMiddle + "@,
        "!MouseMiddle + "@,
    )
}

/// All eight flag cells of a chord's description.
pub open spec fn flags_text(sc: ShortCut) -> Seq<char> {
    flags_text_a(sc) + flags_text_b(sc)
}

/// Appends one flag cell.
fn push_flag(s: &mut String, flag: &Option<bool>, held: &str, off: &str)
    ensures
        final(s)@ == old(s)@ + flag_text(*flag, held@, off@),
{
    match flag {
        Some(true) => s.append(held),
        Some(false) => s.append(off),
        None => {
            proof {
                assert(s@ =~= s@ + Seq::<char>::empty());
            }
        },
    }
}

/// Appends the first four flag cells.
#[verifier::rlimit(100)]
fn push_flags_a(s: &mut String, sc: &ShortCut)
    ensures
        final(s)@ == old(s)@ + flags_text_a(*sc),
{
    push_flag(s, &sc.ctrl, "Ctrl + ", "!Ctrl + ");
    push_flag(s, &sc.shift, "Shift + ", "!Shift + ");
    push_flag(s, &sc.alt, "Alt + ", "!Alt + ");
    push_flag(s, &sc.tab, "Tab + ", "!Tab + ");
    proof {
        assert(s@ =~= old(s)@ + flags_text_a(*sc));
    }
}

/// Appends the last four flag cells.
#[verifier::rlimit(100)]
fn push_flags_b(s: &mut String, sc: &ShortCut)
    ensures
        final(s)@ == old(s)@ + flags_text_b(*sc),
{
    push_flag(s, &sc.windows, "Windows + ", "!Windows + ");
    push_flag(s, &sc.mouse_l_button, "MouseLeft + ", "!MouseLeft + ");
    push_flag(s, &sc.mouse_r_button, "MouseRight + ", "!MouseRight + ");
    push_flag(s, &sc.mouse_m_button, "MouseMiddle + ", "!MouseMiddle + ");
    proof {
        assert(s@ =~= old(s)@ + flags_text_b(*sc));
    }
}

/// Appends the eight flag cells.
#[verifier::rlimit(100)]
fn push_flags(s: &mut String, sc: &ShortCut)
    ensures
        final(s)@ == old(s)@ + flags_text(*sc),
{
    push_flags_a(s, sc);
    push_flags_b(s, sc);
    proof {
        assert(s@ =~= old(s)@ + flags_text(*sc));
    }
}

/// Appends the two trigger cells.
#[verifier::rlimit(100)]
fn push_triggers(s: &mut String, sc: &ShortCut)
    ensures
        final(s)@ == old(s)@ + trigger_text(sc.trigger_l, "TriggerL("@) + trigger_text(
            sc.trigger_r,
            "TriggerR("@,
        ),
{
    match sc.trigger_l {
        Some(v) => {
            s.append("TriggerL(");
            push_decimal(s, v as u64);
            s.append(") + ");
        },
        None => (),
    }
    match sc.trigger_r {
        Some(v) => {
            s.append("TriggerR(");
            push_decimal(s, v as u64);
            s.append(") + ");
        },
        None => (),
    }
    proof {
        assert(s@ =~= old(s)@ + trigger_text(sc.trigger_l, "TriggerL("@) + trigger_text(
            sc.trigger_r,
            "TriggerR("@,
        ));
    }
}

/// Appends the key cell.
#[verifier::rlimit(100)]
fn push_key_cell(s: &mut String, sc: &ShortCut)
    ensures
        final(s)@ == old(s)@ + key_text(sc.key_option, sc.key),
{
    match &sc.key {
        None => {
            if sc.key_option == 0 {
                s.append("SkipKey");
            } else if sc.key_option == 1 {
                s.append("AnyKey");
            } else if sc.key_option == 2 {
                s.append("NoKey");
            } else {
                s.append("UnexpectedKey");
            }
        },
        Some(k) => {
            if sc.key_option == 0 {
                s.append("Key(");
                push_decimal(s, k.0 as u64);
                s.append(")");
            } else if sc.key_option == 1 {
                s.append("Only.Key(");
                push_decimal(s, k.0 as u64);
                s.append(")");
            } else if sc.key_option == 2 {
                s.append("Not.Key(");
                push_decimal(s, k.0 as u64);
                s.append(")");
            } else {
                s.append("UnexpectedKey");
            }
        },
    }
    proof {
        assert(s@ =~= old(s)@ + key_text(sc.key_option, sc.key));
    }
}

/// Appends the controller-button cell.
#[verifier::rlimit(100)]
fn push_btn_cell(s: &mut String, sc: &ShortCut)
    ensures
        final(s)@ == old(s)@ + btn_text(sc.controller_btn_option, sc.controller_btn),
{
    match &sc.controller_btn {
        None => {
            if sc.controller_btn_option == 0 {
                s.append(" SkipCbt");
            } else if sc.controller_btn_option == 1 {
                s.append(" AnyCbt");
            } else if sc.controller_btn_option == 2 {
                s.append(" NoCbt");
            } else {
                s.append(" UnexpectedCbt");
            }
        },
        Some(b) => {
            if sc.controller_btn_option == 0 {
                s.append("Cbt");
                push_decimal(s, b.1 as u64);
                s.append("(");
                push_decimal(s, b.0 as u64);
                s.append(")");
            } else if sc.controller_btn_option == 1 {
                s.append("Only.Cbt");
                push_decimal(s, b.1 as u64);
                s.append("(");
                push_decimal(s, b.0 as u64);
                s.append(")");
            } else if sc.controller_btn_option == 2 {
                s.append("Not.Cbt");
                push_decimal(s, b.1 as u64);
                s.append("(");
                push_decimal(s, b.0 as u64);
                s.append(")");
            } else {
                s.append(" UnexpectedCbt");
            }
        },
    }
    proof {
        assert(s@ =~= old(s)@ + btn_text(sc.controller_btn_option, sc.controller_btn));
    }
}

impl ShortCut {
    /// Renders the chord for an operator's eyes, one cell at a time.
    #[verifier::rlimit(100)]
    pub fn describe(&self) -> (r: String)
        ensures
            r@ == describe_spec(*self),
    {
        let mut s = String::new();
        push_flags(&mut s, self);
        push_triggers(&mut s, self);
        push_key_cell(&mut s, self);
        push_btn_cell(&mut s, self);
        proof {
            assert(s@ =~= describe_spec(*self));
        }
        s
    }
}

} // verus!

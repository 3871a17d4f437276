//! Key bindings: which key stands for which action.
//!
//! A keymap binds every key to at most one action and every action to at most
//! one key, so that it can be read in both directions.

use vstd::prelude::*;
use vstd::string::StrSliceExecFns;

verus! {

/// What a key press can ask for.
#[derive(Debug, Clone, Copy, PartialEq, Eq, Hash, Structural)]
pub enum Action {
    Up,
    Down,
    Left,
    Right,
    PageUp,
    PageDown,
    Quit,
    Reset,
    NextTab,
    PrevTab,
}

/// The keys that a binding can name.
#[derive(Debug, Clone, Copy, PartialEq, Eq, Hash, Structural)]
pub enum KeyCode {
    Char(char),
    Backspace,
    Enter,
    Left,
    Right,
    Up,
    Down,
    Home,
    End,
    PageUp,
    PageDown,
    Tab,
    BackTab,
    Delete,
    Insert,
    Esc,
    F(u8),
}

/// One binding of a key to an action.
#[derive(Debug, Clone, Copy, PartialEq, Eq, Structural)]
pub struct Binding {
    pub code: KeyCode,
    pub action: Action,
}

/// The bindings in force.
#[derive(Clone, Debug)]
pub struct Keymap {
    bindings: Vec<Binding>,
}

/// The configuration of the application.
#[derive(Clone, Debug)]
pub struct AppConfig {
    pub keymap: Keymap,
}

/// No key and no action occurs in two bindings.
pub open spec fn one_to_one(bindings: Seq<Binding>) -> bool {
    forall|i: int, j: int|
        0 <= i < j < bindings.len() ==> (#[trigger] bindings[i]).code != (
        #[trigger] bindings[j]).code && bindings[i].action != bindings[j].action
}

/// The bindings without those of `code` and those of `action`.
pub open spec fn without(bindings: Seq<Binding>, code: KeyCode, action: Action) -> Seq<Binding> {
    bindings.filter(|b: Binding| b.code != code && b.action != action)
}

/// The bindings after `code` was bound to `action`: whatever `code` stood
/// for before and whatever key stood for `action` before is gone.
pub open spec fn rebound(bindings: Seq<Binding>, code: KeyCode, action: Action) -> Seq<Binding> {
    without(bindings, code, action).push(Binding { code, action })
}

/// The action of the first binding of `code`, if there is one.
pub open spec fn lookup_action(bindings: Seq<Binding>, code: KeyCode) -> Option<Action>
    decreases bindings.len(),
{
    if bindings.len() == 0 {
        None
    } else if bindings[0].code == code {
        Some(bindings[0].action)
    } else {
        lookup_action(bindings.drop_first(), code)
    }
}

/// The key of the first binding of `action`, if there is one.
pub open spec fn lookup_code(bindings: Seq<Binding>, action: Action) -> Option<KeyCode>
    decreases bindings.len(),
{
    if bindings.len() == 0 {
        None
    } else if bindings[0].action == action {
        Some(bindings[0].code)
    } else {
        lookup_code(bindings.drop_first(), action)
    }
}

/// What is looked up is bound, and what is not found is not bound.
pub proof fn lemma_lookup(bindings: Seq<Binding>, code: KeyCode, action: Action)
    ensures
        lookup_action(bindings, code) matches Some(a) ==> bindings.contains(
            Binding { code, action: a },
        ),
        lookup_action(bindings, code) is None ==> forall|b: Binding|
            bindings.contains(b) ==> b.code != code,
        lookup_code(bindings, action) matches Some(c) ==> bindings.contains(
            Binding { code: c, action },
        ),
        lookup_code(bindings, action) is None ==> forall|b: Binding|
            bindings.contains(b) ==> b.action != action,
    decreases bindings.len(),
{
    if bindings.len() > 0 {
        let rest = bindings.drop_first();
        lemma_lookup(rest, code, action);
        assert(bindings[0] == (Binding { code: bindings[0].code, action: bindings[0].action }));
        if let Some(a) = lookup_action(bindings, code) {
            if bindings[0].code != code {
                let found = Binding { code, action: a };
                let k = choose|k: int| 0 <= k < rest.len() && rest[k] == found;
                assert(bindings[k + 1] == rest[k]);
            }
        } else {
            assert forall|b: Binding| bindings.contains(b) implies b.code != code by {
                let k = choose|k: int| 0 <= k < bindings.len() && bindings[k] == b;
                if k > 0 {
                    assert(rest[k - 1] == b);
                    assert(rest.contains(b));
                }
            }
        }
        if let Some(c) = lookup_code(bindings, action) {
            if bindings[0].action != action {
                let found = Binding { code: c, action };
                let k = choose|k: int| 0 <= k < rest.len() && rest[k] == found;
                assert(bindings[k + 1] == rest[k]);
            }
        } else {
            assert forall|b: Binding| bindings.contains(b) implies b.action != action by {
                let k = choose|k: int| 0 <= k < bindings.len() && bindings[k] == b;
                if k > 0 {
                    assert(rest[k - 1] == b);
                    assert(rest.contains(b));
                }
            }
        }
    }
}

/// The bindings that hold where nothing is configured.
pub open spec fn default_bindings() -> Seq<Binding> {
    seq![
        Binding { code: KeyCode::Char('k'), action: Action::Up },
        Binding { code: KeyCode::Char('j'), action: Action::Down },
        Binding { code: KeyCode::Char('h'), action: Action::Left },
        Binding { code: KeyCode::Char('l'), action: Action::Right },
        Binding { code: KeyCode::Char('u'), action: Action::PageUp },
        Binding { code: KeyCode::Char('d'), action: Action::PageDown },
        Binding { code: KeyCode::Char('q'), action: Action::Quit },
        Binding { code: KeyCode::Esc, action: Action::Reset },
        Binding { code: KeyCode::Tab, action: Action::NextTab },
        Binding { code: KeyCode::BackTab, action: Action::PrevTab },
    ]
}

proof fn lemma_without(bindings: Seq<Binding>, code: KeyCode, action: Action)
    requires
        one_to_one(bindings),
    ensures
        one_to_one(without(bindings, code, action)),
        forall|b: Binding| #[trigger]
            without(bindings, code, action).contains(b) <==> (bindings.contains(b) && b.code
                != code && b.action != action),
    decreases bindings.len(),
{
    reveal(Seq::filter);
    let keep = |b: Binding| b.code != code && b.action != action;
    let out = without(bindings, code, action);
    if bindings.len() > 0 {
        let before = bindings.drop_last();
        assert forall|i: int, j: int| 0 <= i < j < before.len() implies (#[trigger] before[i]).code
            != (#[trigger] before[j]).code && before[i].action != before[j].action by {
            assert(before[i] == bindings[i] && before[j] == bindings[j]);
        }
        lemma_without(before, code, action);
        let inner = without(before, code, action);
        assert forall|b: Binding| #[trigger]
            out.contains(b) <==> (bindings.contains(b) && b.code != code && b.action
                != action) by {
            if out.contains(b) {
                let k = choose|k: int| 0 <= k < out.len() && out[k] == b;
                if k < inner.len() {
                    assert(inner[k] == b);
                    assert(inner.contains(b));
                    let m = choose|m: int| 0 <= m < before.len() && before[m] == b;
                    assert(bindings[m] == b);
                } else {
                    assert(bindings[bindings.len() - 1] == b);
                }
            }
            if bindings.contains(b) && b.code != code && b.action != action {
                let m = choose|m: int| 0 <= m < bindings.len() && bindings[m] == b;
                if m < before.len() {
                    assert(before[m] == b);
                    assert(before.contains(b));
                    let k = choose|k: int| 0 <= k < inner.len() && inner[k] == b;
                    assert(out[k] == b);
                } else {
                    assert(out[out.len() - 1] == b);
                }
            }
        }
        assert forall|i: int, j: int| 0 <= i < j < out.len() implies (#[trigger] out[i]).code != (
        #[trigger] out[j]).code && out[i].action != out[j].action by {
            if j < inner.len() {
                assert(out[i] == inner[i] && out[j] == inner[j]);
            } else {
                assert(out[i] == inner[i]);
                assert(inner.contains(inner[i]));
                let m = choose|m: int| 0 <= m < before.len() && before[m] == inner[i];
                assert(bindings[m] == inner[i]);
                assert(bindings[bindings.len() - 1] == out[j]);
            }
        }
    }
}

impl Keymap {
    /// The bindings, in the order in which they were made.
    pub closed spec fn bindings(&self) -> Seq<Binding> {
        self.bindings@
    }

    /// No key and no action is bound twice. The keymaps that this module
    /// makes are all of this kind.
    pub open spec fn well_formed(&self) -> bool {
        one_to_one(self.bindings())
    }

    /// The action that `code` is bound to, if any.
    pub fn get_action(&self, code: KeyCode) -> (r: Option<Action>)
        ensures
            r == lookup_action(self.bindings(), code),
    {
        let mut i: usize = 0;
        proof {
            assert(self.bindings@.skip(0) =~= self.bindings@);
        }
        while i < self.bindings.len()
            invariant
                i <= self.bindings@.len(),
                lookup_action(self.bindings@, code) == lookup_action(
                    self.bindings@.skip(i as int),
                    code,
                ),
            decreases self.bindings@.len() - i,
        {
            proof {
                assert(self.bindings@.skip(i as int)[0] == self.bindings@[i as int]);
                assert(self.bindings@.skip(i as int).drop_first() =~= self.bindings@.skip(i + 1));
            }
            if self.bindings[i].code == code {
                return Some(self.bindings[i].action);
            }
            i = i + 1;
        }
        None
    }

    /// The key that is bound to `action`, if any.
    pub fn get_keycode(&self, action: Action) -> (r: Option<KeyCode>)
        ensures
            r == lookup_code(self.bindings(), action),
    {
        let mut i: usize = 0;
        proof {
            assert(self.bindings@.skip(0) =~= self.bindings@);
        }
        while i < self.bindings.len()
            invariant
                i <= self.bindings@.len(),
                lookup_code(self.bindings@, action) == lookup_code(
                    self.bindings@.skip(i as int),
                    action,
                ),
            decreases self.bindings@.len() - i,
        {
            proof {
                assert(self.bindings@.skip(i as int)[0] == self.bindings@[i as int]);
                assert(self.bindings@.skip(i as int).drop_first() =~= self.bindings@.skip(i + 1));
            }
            if self.bindings[i].action == action {
                return Some(self.bindings[i].code);
            }
            i = i + 1;
        }
        None
    }

    /// Binds `code` to `action`. The key loses what it stood for, and the
    /// action loses the key it had.
    pub fn bind(self, code: KeyCode, action: Action) -> (map: Keymap)
        ensures
            map.bindings() == rebound(self.bindings(), code, action),
            self.well_formed() ==> map.well_formed(),
    {
        proof {
            if self.well_formed() {
                lemma_without(self.bindings@, code, action);
            }
            reveal(Seq::filter);
        }
        let ghost keep = |b: Binding| b.code != code && b.action != action;
        let mut kept: Vec<Binding> = Vec::new();
        let mut i: usize = 0;
        proof {
            assert(self.bindings@.take(0) =~= Seq::<Binding>::empty());
        }
        while i < self.bindings.len()
            invariant
                i <= self.bindings@.len(),
                keep == |b: Binding| b.code != code && b.action != action,
                kept@ == self.bindings@.take(i as int).filter(keep),
            decreases self.bindings@.len() - i,
        {
            proof {
                reveal(Seq::filter);
                assert(self.bindings@.take(i + 1).drop_last() =~= self.bindings@.take(i as int));
                assert(self.bindings@.take(i + 1).last() == self.bindings@[i as int]);
            }
            let b = self.bindings[i];
            if b.code != code && b.action != action {
                kept.push(b);
            }
            i = i + 1;
        }
        proof {
            assert(self.bindings@.take(i as int) =~= self.bindings@);
            let out = kept@.push(Binding { code, action });
            if self.well_formed() {
                assert forall|x: int, y: int| 0 <= x < y < out.len() implies (
                #[trigger] out[x]).code != (#[trigger] out[y]).code && out[x].action
                    != out[y].action by {
                    if y == kept@.len() {
                        assert(kept@.contains(kept@[x]));
                    }
                }
            }
        }
        kept.push(Binding { code, action });
        Keymap { bindings: kept }
    }
}

/// The keymap that holds where nothing is configured.
pub fn default_keybindings() -> (map: Keymap)
    ensures
        map.bindings() == default_bindings(),
        map.well_formed(),
{
    let mut bindings: Vec<Binding> = Vec::new();
    bindings.push(Binding { code: KeyCode::Char('k'), action: Action::Up });
    bindings.push(Binding { code: KeyCode::Char('j'), action: Action::Down });
    bindings.push(Binding { code: KeyCode::Char('h'), action: Action::Left });
    bindings.push(Binding { code: KeyCode::Char('l'), action: Action::Right });
    bindings.push(Binding { code: KeyCode::Char('u'), action: Action::PageUp });
    bindings.push(Binding { code: KeyCode::Char('d'), action: Action::PageDown });
    bindings.push(Binding { code: KeyCode::Char('q'), action: Action::Quit });
    bindings.push(Binding { code: KeyCode::Esc, action: Action::Reset });
    bindings.push(Binding { code: KeyCode::Tab, action: Action::NextTab });
    bindings.push(Binding { code: KeyCode::BackTab, action: Action::PrevTab });
    assert(bindings@ =~= default_bindings());
    Keymap { bindings }
}

impl Default for AppConfig {
    fn default() -> (config: AppConfig)
        ensures
            config.keymap.bindings() == default_bindings(),
            config.keymap.well_formed(),
    {
        AppConfig { keymap: default_keybindings() }
    }
}

/// The value of a string of decimal digits.
pub open spec fn digits_number(digits: Seq<char>) -> nat
    decreases digits.len(),
{
    if digits.len() == 0 {
        0
    } else {
        10 * digits_number(digits.drop_last()) + (digits.last() as u32 - 48) as nat
    }
}

/// Every character is a decimal digit.
pub open spec fn all_digits(digits: Seq<char>) -> bool {
    forall|i: int| 0 <= i < digits.len() ==> '0' <= #[trigger] digits[i] <= '9'
}

/// The number that a text spells, where it fits in eight bits: decimal
/// digits, at least one, after an optional plus sign.
pub open spec fn small_number(text: Seq<char>) -> Option<u8> {
    let digits = if text.len() > 0 && text[0] == '+' {
        text.skip(1)
    } else {
        text
    };
    if digits.len() > 0 && all_digits(digits) && digits_number(digits) <= 255 {
        Some(digits_number(digits) as u8)
    } else {
        None
    }
}

/// The key that a name stands for. A single ASCII character stands for
/// itself, the named keys for themselves, and `F` with a number for a function
/// key.
pub open spec fn named_key(name: Seq<char>) -> Option<KeyCode> {
    if name.len() == 1 && (name[0] as u32) < 128 {
        Some(KeyCode::Char(name[0]))
    } else if name == "Backspace"@ {
        Some(KeyCode::Backspace)
    } else if name == "Enter"@ {
        Some(KeyCode::Enter)
    } else if name == "Left"@ {
        Some(KeyCode::Left)
    } else if name == "Right"@ {
        Some(KeyCode::Right)
    } else if name == "Up"@ {
        Some(KeyCode::Up)
    } else if name == "Down"@ {
        Some(KeyCode::Down)
    } else if name == "Home"@ {
        Some(KeyCode::Home)
    } else if name == "End"@ {
        Some(KeyCode::End)
    } else if name == "PageUp"@ {
        Some(KeyCode::PageUp)
    } else if name == "PageDown"@ {
        Some(KeyCode::PageDown)
    } else if name == "Tab"@ {
        Some(KeyCode::Tab)
    } else if name == "BackTab"@ {
        Some(KeyCode::BackTab)
    } else if name == "Delete"@ {
        Some(KeyCode::Delete)
    } else if name == "Insert"@ {
        Some(KeyCode::Insert)
    } else if name == "Esc"@ || name == "Escape"@ {
        Some(KeyCode::Esc)
    } else if name.len() > 0 && name[0] == 'F' {
        match small_number(name.skip(1)) {
            Some(n) => Some(KeyCode::F(n)),
            None => None,
        }
    } else {
        None
    }
}

/// What is said of a name that stands for no key.
pub open spec fn key_complaint(name: Seq<char>) -> Seq<char> {
    if name.len() > 0 && name[0] == 'F' {
        "Bad function key: "@ + name
    } else {
        "Unknown key '"@ + name + "'"@
    }
}

proof fn lemma_digits_number_grows(digits: Seq<char>, i: int)
    requires
        0 <= i <= digits.len(),
        all_digits(digits),
    ensures
        digits_number(digits.take(i)) <= digits_number(digits),
    decreases digits.len() - i,
{
    if i < digits.len() {
        lemma_digits_number_grows(digits, i + 1);
        assert(digits.take(i + 1).drop_last() =~= digits.take(i));
        assert(digits.take(i + 1).last() == digits[i]);
    } else {
        assert(digits.take(i) =~= digits);
    }
}

/// Reads a number of at most eight bits from the characters of `text` from
/// `from` on.
fn parse_small_number(text: &str, from: usize) -> (r: Option<u8>)
    requires
        from <= text@.len(),
    ensures
        r == small_number(text@.skip(from as int)),
{
    let len: usize = text.unicode_len();
    let ghost tail = text@.skip(from as int);
    let mut i: usize = from;
    if i < len && text.get_char(i) == '+' {
        i = i + 1;
    }
    let start: usize = i;
    let ghost digits = text@.skip(start as int);
    proof {
        if start > from {
            assert(tail[0] == text@[from as int]);
            assert(tail.skip(1) =~= digits);
        } else if tail.len() > 0 {
            assert(tail[0] == text@[from as int]);
        }
    }
    if start == len {
        return None;
    }
    let mut value: u32 = 0;
    let ghost goal = small_number(tail);
    proof {
        assert(digits.take(0) =~= Seq::<char>::empty());
        assert(goal == if all_digits(digits) && digits_number(digits) <= 255 {
            Some(digits_number(digits) as u8)
        } else {
            None
        });
    }
    while i < len
        invariant
            start <= i <= len == text@.len(),
            digits == text@.skip(start as int),
            goal == small_number(text@.skip(from as int)),
            goal == if all_digits(digits) && digits_number(digits) <= 255 {
                Some(digits_number(digits) as u8)
            } else {
                None
            },
            all_digits(digits.take(i - start)),
            value == digits_number(digits.take(i - start)),
            value <= 255,
        decreases len - i,
    {
        let c: char = text.get_char(i);
        proof {
            assert(digits[i - start] == c);
            assert(digits.take(i - start + 1).drop_last() =~= digits.take(i - start));
            assert(digits.take(i - start + 1).last() == c);
        }
        if c < '0' || c > '9' {
            return None;
        }
        let d: u32 = c as u32 - 48;
        value = value * 10 + d;
        proof {
            assert forall|k: int| 0 <= k < i - start + 1 implies '0' <= #[trigger] digits.take(
                i - start + 1,
            )[k] <= '9' by {
                if k < i - start {
                    assert(digits.take(i - start)[k] == digits[k]);
                }
            }
        }
        if value > 255 {
            proof {
                if all_digits(digits) {
                    lemma_digits_number_grows(digits, i - start + 1);
                }
            }
            return None;
        }
        i = i + 1;
    }
    proof {
        assert(digits.take(i - start) =~= digits);
    }
    Some(value as u8)
}

fn same_text(a: &str, b: &str) -> (r: bool)
    ensures
        r == (a@ == b@),
{
    let x: String = a.to_owned();
    let y: String = b.to_owned();
    x == y
}

/// Reads the name of a key. A name that stands for no key is answered with
/// a complaint.
pub fn parse_keycode(s: &str) -> (r: Result<KeyCode, String>)
    ensures
        match r {
            Ok(code) => named_key(s@) == Some(code),
            Err(complaint) => named_key(s@) is None && complaint@ == key_complaint(s@),
        },
{
    let len: usize = s.unicode_len();
    if len == 1 {
        let c: char = s.get_char(0);
        if (c as u32) < 128 {
            return Ok(KeyCode::Char(c));
        }
    }
    if same_text(s, "Backspace") {
        Ok(KeyCode::Backspace)
    } else if same_text(s, "Enter") {
        Ok(KeyCode::Enter)
    } else if same_text(s, "Left") {
        Ok(KeyCode::Left)
    } else if same_text(s, "Right") {
        Ok(KeyCode::Right)
    } else if same_text(s, "Up") {
        Ok(KeyCode::Up)
    } else if same_text(s, "Down") {
        Ok(KeyCode::Down)
    } else if same_text(s, "Home") {
        Ok(KeyCode::Home)
    } else if same_text(s, "End") {
        Ok(KeyCode::End)
    } else if same_text(s, "PageUp") {
        Ok(KeyCode::PageUp)
    } else if same_text(s, "PageDown") {
        Ok(KeyCode::PageDown)
    } else if same_text(s, "Tab") {
        Ok(KeyCode::Tab)
    } else if same_text(s, "BackTab") {
        Ok(KeyCode::BackTab)
    } else if same_text(s, "Delete") {
        Ok(KeyCode::Delete)
    } else if same_text(s, "Insert") {
        Ok(KeyCode::Insert)
    } else if same_text(s, "Esc") || same_text(s, "Escape") {
        Ok(KeyCode::Esc)
    } else if len > 0 && s.get_char(0) == 'F' {
        match parse_small_number(s, 1) {
            Some(n) => Ok(KeyCode::F(n)),
            None => {
                let mut complaint = "Bad function key: ".to_owned();
                complaint.append(s);
                Err(complaint)
            },
        }
    } else {
        let mut complaint = "Unknown key '".to_owned();
        complaint.append(s);
        complaint.append("'");
        Err(complaint)
    }
}

/// One line of a configuration: the name of a key and the action it is to
/// stand for.
pub struct RawBinding {
    pub key: String,
    pub action: Action,
}

/// The bindings after the configured lines were applied in order to
/// `bindings`. A line whose key has no meaning changes nothing.
pub open spec fn configured(bindings: Seq<Binding>, raw: Seq<RawBinding>) -> Seq<Binding>
    decreases raw.len(),
{
    if raw.len() == 0 {
        bindings
    } else {
        let before = configured(bindings, raw.drop_last());
        match named_key(raw.last().key@) {
            Some(code) => rebound(before, code, raw.last().action),
            None => before,
        }
    }
}

/// The complaints about the configured lines whose key has no meaning, in
/// the order of the lines.
pub open spec fn complaints(raw: Seq<RawBinding>) -> Seq<Seq<char>>
    decreases raw.len(),
{
    if raw.len() == 0 {
        Seq::empty()
    } else {
        match named_key(raw.last().key@) {
            Some(_) => complaints(raw.drop_last()),
            None => complaints(raw.drop_last()).push(key_complaint(raw.last().key@)),
        }
    }
}

/// Builds the keymap of a configuration: the default bindings, changed by
/// the configured lines in order. The complaints about lines that were
/// passed over come with it.
pub fn build_keymap(raw: &Vec<RawBinding>) -> (r: (Keymap, Vec<String>))
    ensures
        r.0.bindings() == configured(default_bindings(), raw@),
        r.0.well_formed(),
        crate::text::views(r.1@) == complaints(raw@),
{
    let mut map = default_keybindings();
    let mut said: Vec<String> = Vec::new();
    let mut i: usize = 0;
    proof {
        assert(raw@.take(0) =~= Seq::<RawBinding>::empty());
        assert(crate::text::views(said@) =~= Seq::<Seq<char>>::empty());
    }
    while i < raw.len()
        invariant
            i <= raw@.len(),
            map.bindings() == configured(default_bindings(), raw@.take(i as int)),
            map.well_formed(),
            crate::text::views(said@) == complaints(raw@.take(i as int)),
        decreases raw@.len() - i,
    {
        proof {
            assert(raw@.take(i + 1).drop_last() =~= raw@.take(i as int));
            assert(raw@.take(i + 1).last() == raw@[i as int]);
        }
        match parse_keycode(raw[i].key.as_str()) {
            Ok(code) => {
                map = map.bind(code, raw[i].action);
            },
            Err(complaint) => {
                proof {
                    assert(crate::text::views(said@.push(complaint)) =~= crate::text::views(
                        said@,
                    ).push(complaint@));
                }
                said.push(complaint);
            },
        }
        i = i + 1;
    }
    proof {
        assert(raw@.take(i as int) =~= raw@);
    }
    (map, said)
}

} // verus!

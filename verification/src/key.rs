//! Keys, as the editor takes them from whatever reads the keyboard.

use vstd::prelude::*;

verus! {

/// `char::to_ascii_lowercase`: the lower-case form of an ASCII capital, any
/// other character as it is.
pub assume_specification[ char::to_ascii_lowercase ](c: &char) -> (r: char)
    ensures
        r == lowered(*c),
;

/// `char::is_ascii_uppercase`: whether the character is one of `A` to `Z`.
pub assume_specification[ char::is_ascii_uppercase ](c: &char) -> (r: bool)
    ensures
        r == is_capital(*c),
;

/// The character is an ASCII capital letter.
pub open spec fn is_capital(c: char) -> bool {
    'A' <= c <= 'Z'
}

/// The lower-case form of an ASCII capital letter; any other character as it
/// is.
pub open spec fn lowered(c: char) -> char {
    if is_capital(c) {
        ((c as u8) + 32) as char
    } else {
        c
    }
}

/// A key.
#[derive(Debug, Copy, Clone, PartialEq, Eq, Hash, Ord, PartialOrd, Structural)]
pub enum Key {
    /// Backspace.
    Backspace,
    /// Left arrow.
    Left,
    /// Right arrow.
    Right,
    /// Up arrow.
    Up,
    /// Down arrow.
    Down,
    /// Home key.
    Home,
    /// End key.
    End,
    /// Page Up key.
    PageUp,
    /// Page Down key.
    PageDown,
    /// Delete key.
    Delete,
    /// Insert key.
    Insert,
    /// Function keys.
    ///
    /// Only function keys 1 through 12 are supported.
    F(u8),
    /// Normal character.
    Char(char),
    /// Alt modified character.
    Alt(char),
    /// Ctrl modified character.
    ///
    /// Note that certain keys may not be modifiable with `ctrl`, due to
    /// limitations of terminals.
    Ctrl(char),
    /// Null byte.
    Null,
    /// Esc key.
    Esc,
    /// A key that this list has no name for.
    __IsNotComplete,
}

/// A key, ordered as a list of key bindings is read most easily: escape
/// first, then letters and signs with each letter's variants side by side,
/// then function keys, then the rest.
#[derive(Copy, Clone, Debug, PartialEq, Eq, Structural)]
pub struct NaturalyOrderedKey(pub Key);

/// The character that a function key is ordered by: the digit sign that
/// stands `n` places behind `0`, counted round within a byte.
pub open spec fn function_key_sign(n: u8) -> char {
    (((48 + n) % 256) as u8) as char
}

/// What a key is ordered by, in turn: its group, its character without
/// regard to case, and its modifier (plain, control, alt; the capital behind
/// the small letter).
pub open spec fn spec_ordering_keys(key: Key) -> (usize, char, usize) {
    match key {
        Key::F(c) => (9, function_key_sign(c), 0),
        Key::Char(c) => (1, lowered(c), if is_capital(c) { 2 } else { 1 }),
        Key::Ctrl(c) => (1, lowered(c), if is_capital(c) { 4 } else { 3 }),
        Key::Alt(c) => (1, lowered(c), if is_capital(c) { 6 } else { 5 }),
        Key::Esc => (0, '\0', 0),
        _ => (10, '?', 0),
    }
}

/// The place of a key's kind among the kinds of keys, and what the key
/// carries as a number: the order of two keys that nothing else tells
/// apart.
pub open spec fn spec_rank(key: Key) -> (usize, u32) {
    match key {
        Key::Backspace => (0, 0),
        Key::Left => (1, 0),
        Key::Right => (2, 0),
        Key::Up => (3, 0),
        Key::Down => (4, 0),
        Key::Home => (5, 0),
        Key::End => (6, 0),
        Key::PageUp => (7, 0),
        Key::PageDown => (8, 0),
        Key::Delete => (9, 0),
        Key::Insert => (10, 0),
        Key::F(n) => (11, n as u32),
        Key::Char(c) => (12, c as u32),
        Key::Alt(c) => (13, c as u32),
        Key::Ctrl(c) => (14, c as u32),
        Key::Null => (15, 0),
        Key::Esc => (16, 0),
        Key::__IsNotComplete => (17, 0),
    }
}

/// Key `a` comes before key `b` in the natural order: by what
/// `spec_ordering_keys` gives, and by rank where that is the same.
pub open spec fn naturally_before(a: Key, b: Key) -> bool {
    let ka = spec_ordering_keys(a);
    let kb = spec_ordering_keys(b);
    let ra = spec_rank(a);
    let rb = spec_rank(b);
    ka.0 < kb.0 || (ka.0 == kb.0 && (ka.1 < kb.1 || (ka.1 == kb.1 && (ka.2 < kb.2 || (ka.2
        == kb.2 && (ra.0 < rb.0 || (ra.0 == rb.0 && ra.1 < rb.1)))))))
}

/// The digit sign for `d`, which is less than ten.
pub open spec fn digit_sign(d: nat) -> char {
    ((48 + d) as u8) as char
}

/// The number `n` in decimal digits.
pub open spec fn decimal(n: nat) -> Seq<char>
    decreases n,
{
    if n < 10 {
        seq![digit_sign(n)]
    } else {
        decimal(n / 10).push(digit_sign(n % 10))
    }
}

/// How a key is written: a character as itself, with `a-` before it for
/// alt and `c-` for control; a function key as `f` and its number; escape
/// as `esc`; any other key as a question mark.
pub open spec fn spec_label(key: Key) -> Seq<char> {
    match key {
        Key::F(n) => seq!['f'] + decimal(n as nat),
        Key::Char(c) => seq![c],
        Key::Alt(c) => seq!['a', '-', c],
        Key::Ctrl(c) => seq!['c', '-', c],
        Key::Esc => seq!['e', 's', 'c'],
        _ => seq!['?'],
    }
}

/// Writes the decimal digits of `n` behind `s`.
fn push_decimal(s: &mut String, n: u8)
    ensures
        final(s)@ == old(s)@ + decimal(n as nat),
    decreases n,
{
    if n >= 10 {
        push_decimal(s, n / 10);
    }
    s.push((48 + n % 10) as char);
    assert(s@ =~= old(s)@ + decimal(n as nat));
}

impl Key {
    /// How the key is written.
    pub fn label(self) -> (r: String)
        ensures
            r@ == spec_label(self),
    {
        let mut text = String::new();
        match self {
            Key::F(n) => {
                text.push('f');
                push_decimal(&mut text, n);
            },
            Key::Char(c) => {
                text.push(c);
            },
            Key::Alt(c) => {
                text.push('a');
                text.push('-');
                text.push(c);
            },
            Key::Ctrl(c) => {
                text.push('c');
                text.push('-');
                text.push(c);
            },
            Key::Esc => {
                text.push('e');
                text.push('s');
                text.push('c');
            },
            _ => {
                text.push('?');
            },
        }
        assert(text@ =~= spec_label(self));
        text
    }

    /// The place of the key's kind among the kinds of keys, and what the key
    /// carries as a number.
    pub fn rank(self) -> (r: (usize, u32))
        ensures
            r == spec_rank(self),
    {
        match self {
            Key::Backspace => (0, 0),
            Key::Left => (1, 0),
            Key::Right => (2, 0),
            Key::Up => (3, 0),
            Key::Down => (4, 0),
            Key::Home => (5, 0),
            Key::End => (6, 0),
            Key::PageUp => (7, 0),
            Key::PageDown => (8, 0),
            Key::Delete => (9, 0),
            Key::Insert => (10, 0),
            Key::F(n) => (11, n as u32),
            Key::Char(c) => (12, c as u32),
            Key::Alt(c) => (13, c as u32),
            Key::Ctrl(c) => (14, c as u32),
            Key::Null => (15, 0),
            Key::Esc => (16, 0),
            Key::__IsNotComplete => (17, 0),
        }
    }
}

impl NaturalyOrderedKey {
    /// What the key is ordered by, in turn.
    pub fn ordering_keys(self) -> (r: (usize, char, usize))
        ensures
            r == spec_ordering_keys(self.0),
    {
        match self.0 {
            Key::F(c) => (9, (48u8.wrapping_add(c)) as char, 0),
            Key::Char(c) => (
                1,
                c.to_ascii_lowercase(),
                if c.is_ascii_uppercase() {
                    2
                } else {
                    1
                },
            ),
            Key::Ctrl(c) => (
                1,
                c.to_ascii_lowercase(),
                if c.is_ascii_uppercase() {
                    4
                } else {
                    3
                },
            ),
            Key::Alt(c) => (
                1,
                c.to_ascii_lowercase(),
                if c.is_ascii_uppercase() {
                    6
                } else {
                    5
                },
            ),
            Key::Esc => (0, '\0', 0),
            _ => (10, '?', 0),
        }
    }

    /// Whether this key comes before `other` in the natural order.
    pub fn comes_before(self, other: NaturalyOrderedKey) -> (r: bool)
        ensures
            r == naturally_before(self.0, other.0),
    {
        let (s_group, s_key, s_mod) = self.ordering_keys();
        let (o_group, o_key, o_mod) = other.ordering_keys();
        let (s_kind, s_held) = self.0.rank();
        let (o_kind, o_held) = other.0.rank();
        s_group < o_group || (s_group == o_group && (s_key < o_key || (s_key == o_key && (s_mod
            < o_mod || (s_mod == o_mod && (s_kind < o_kind || (s_kind == o_kind && s_held
            < o_held)))))))
    }
}

/// No key comes before itself, and of two different keys just one comes
/// before the other.
pub proof fn lemma_natural_order_total(a: Key, b: Key)
    ensures
        !naturally_before(a, a),
        a != b ==> (naturally_before(a, b) != naturally_before(b, a)),
{
}

/// A key that comes before a key that comes before a third comes before the
/// third.
pub proof fn lemma_natural_order_transitive(a: Key, b: Key, c: Key)
    requires
        naturally_before(a, b),
        naturally_before(b, c),
    ensures
        naturally_before(a, c),
{
}

} // verus!

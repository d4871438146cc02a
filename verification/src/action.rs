//! The actions that keys of normal mode are bound to by name, with a line
//! of help for each: what a list of key bindings shows.

use crate::key::{naturally_before, Key, NaturalyOrderedKey};
use vstd::prelude::*;

verus! {

/// An action that a key of normal mode is bound to.
#[derive(Debug, Copy, Clone, PartialEq, Eq, Structural)]
pub enum Action {
    Command,
    Insert,
    InsertExtend,
    MoveDownPage,
    ExtendDownPage,
    LineAppend,
    LineAppendExtend,
    OpenFile,
    MoveUpPage,
    ExtendUpPage,
    IndentRight,
    IndentLeft,
    OpenLine,
    SelectInnerSurrounding,
    ExpandInnerSurrounding,
}

/// The key that an action is bound to.
pub open spec fn bound_key(action: Action) -> Key {
    match action {
        Action::Command => Key::Char(':'),
        Action::Insert => Key::Char('i'),
        Action::InsertExtend => Key::Char('I'),
        Action::MoveDownPage => Key::Ctrl('d'),
        Action::ExtendDownPage => Key::Ctrl('D'),
        Action::LineAppend => Key::Char('a'),
        Action::LineAppendExtend => Key::Char('A'),
        Action::OpenFile => Key::Ctrl('p'),
        Action::MoveUpPage => Key::Ctrl('u'),
        Action::ExtendUpPage => Key::Ctrl('U'),
        Action::IndentRight => Key::Char('>'),
        Action::IndentLeft => Key::Char('<'),
        Action::OpenLine => Key::Char('o'),
        Action::SelectInnerSurrounding => Key::Alt('i'),
        Action::ExpandInnerSurrounding => Key::Alt('I'),
    }
}

/// The bindings list each key before the keys that come behind it in the
/// natural order, and bind each action to its key.
pub open spec fn is_binding_list(list: Seq<(NaturalyOrderedKey, Action)>) -> bool {
    &&& forall|i: int| 0 <= i < list.len() ==> (#[trigger] list[i]).0.0 == bound_key(list[i].1)
    &&& forall|i: int, j: int|
        0 <= i < j < list.len() ==> naturally_before(
            (#[trigger] list[i]).0.0,
            (#[trigger] list[j]).0.0,
        )
}

impl Action {
    /// What a list of key bindings says of the action.
    pub fn help(self) -> (r: &'static str)
        ensures
            r@ == match self {
                Action::Command => "command mode"@,
                Action::Insert => "insert mode"@,
                Action::InsertExtend => "insert extend mode"@,
                Action::MoveDownPage => "move down page"@,
                Action::ExtendDownPage => "extend down page"@,
                Action::LineAppend => "append to line"@,
                Action::LineAppendExtend => "append to line (extend)"@,
                Action::OpenFile => "open mode"@,
                Action::MoveUpPage => "move up page"@,
                Action::ExtendUpPage => "extend up page"@,
                Action::IndentRight => "indent right"@,
                Action::IndentLeft => "indent left"@,
                Action::OpenLine => "open line"@,
                Action::SelectInnerSurrounding => "select inner surrounding"@,
                Action::ExpandInnerSurrounding => "expand inner surrounding"@,
            },
    {
        match self {
            Action::Command => "command mode",
            Action::Insert => "insert mode",
            Action::InsertExtend => "insert extend mode",
            Action::MoveDownPage => "move down page",
            Action::ExtendDownPage => "extend down page",
            Action::LineAppend => "append to line",
            Action::LineAppendExtend => "append to line (extend)",
            Action::OpenFile => "open mode",
            Action::MoveUpPage => "move up page",
            Action::ExtendUpPage => "extend up page",
            Action::IndentRight => "indent right",
            Action::IndentLeft => "indent left",
            Action::OpenLine => "open line",
            Action::SelectInnerSurrounding => "select inner surrounding",
            Action::ExpandInnerSurrounding => "expand inner surrounding",
        }
    }

    /// The key that the action is bound to.
    pub fn key(self) -> (r: Key)
        ensures
            r == bound_key(self),
    {
        match self {
            Action::Command => Key::Char(':'),
            Action::Insert => Key::Char('i'),
            Action::InsertExtend => Key::Char('I'),
            Action::MoveDownPage => Key::Ctrl('d'),
            Action::ExtendDownPage => Key::Ctrl('D'),
            Action::LineAppend => Key::Char('a'),
            Action::LineAppendExtend => Key::Char('A'),
            Action::OpenFile => Key::Ctrl('p'),
            Action::MoveUpPage => Key::Ctrl('u'),
            Action::ExtendUpPage => Key::Ctrl('U'),
            Action::IndentRight => Key::Char('>'),
            Action::IndentLeft => Key::Char('<'),
            Action::OpenLine => Key::Char('o'),
            Action::SelectInnerSurrounding => Key::Alt('i'),
            Action::ExpandInnerSurrounding => Key::Alt('I'),
        }
    }
}

/// The action stands in the list.
pub open spec fn is_listed(list: Seq<(NaturalyOrderedKey, Action)>, action: Action) -> bool {
    exists|j: int| 0 <= j < list.len() && (#[trigger] list[j]).1 == action
}

/// The place of an action among the actions.
spec fn place_of(action: Action) -> int {
    match action {
        Action::Insert => 0,
        Action::InsertExtend => 1,
        Action::Command => 2,
        Action::LineAppend => 3,
        Action::LineAppendExtend => 4,
        Action::OpenFile => 5,
        Action::MoveUpPage => 6,
        Action::MoveDownPage => 7,
        Action::ExtendUpPage => 8,
        Action::ExtendDownPage => 9,
        Action::IndentRight => 10,
        Action::IndentLeft => 11,
        Action::OpenLine => 12,
        Action::SelectInnerSurrounding => 13,
        Action::ExpandInnerSurrounding => 14,
    }
}

/// All the actions.
fn all_actions() -> (r: Vec<Action>)
    ensures
        r@.len() == 15,
        forall|action: Action| r@[place_of(action)] == action,
{
    let mut actions: Vec<Action> = Vec::new();
    actions.push(Action::Insert);
    actions.push(Action::InsertExtend);
    actions.push(Action::Command);
    actions.push(Action::LineAppend);
    actions.push(Action::LineAppendExtend);
    actions.push(Action::OpenFile);
    actions.push(Action::MoveUpPage);
    actions.push(Action::MoveDownPage);
    actions.push(Action::ExtendUpPage);
    actions.push(Action::ExtendDownPage);
    actions.push(Action::IndentRight);
    actions.push(Action::IndentLeft);
    actions.push(Action::OpenLine);
    actions.push(Action::SelectInnerSurrounding);
    actions.push(Action::ExpandInnerSurrounding);
    actions
}

/// The key bindings of normal mode that go by name, in the natural order of
/// their keys.
pub fn default_key_mappings() -> (list: Vec<(NaturalyOrderedKey, Action)>)
    ensures
        is_binding_list(list@),
        forall|action: Action| is_listed(list@, action),
{
    let actions = all_actions();
    let mut list: Vec<(NaturalyOrderedKey, Action)> = Vec::new();
    let mut k: usize = 0;
    while k < actions.len()
        invariant
            k <= actions@.len(),
            is_binding_list(list@),
            forall|m: int| 0 <= m < k ==> is_listed(list@, #[trigger] actions@[m]),
        decreases actions@.len() - k,
    {
        let action = actions[k];
        let key = NaturalyOrderedKey(action.key());
        let mut at: usize = 0;
        while at < list.len() && list[at].0.comes_before(key)
            invariant
                at <= list@.len(),
                is_binding_list(list@),
                key.0 == bound_key(action),
                forall|j: int| 0 <= j < at ==> naturally_before((#[trigger] list@[j]).0.0, key.0),
            decreases list@.len() - at,
        {
            at += 1;
        }
        if at < list.len() && !key.comes_before(list[at].0) {
            proof {
                crate::key::lemma_natural_order_total(key.0, list@[at as int].0.0);
                assert(list@[at as int].1 == action);
            }
        } else {
            let ghost before = list@;
            list.insert(at, (key, action));
            proof {
                assert(list@[at as int].1 == action);
                assert forall|m: int| 0 <= m < k implies is_listed(list@, #[trigger] actions@[m]) by {
                    let j = choose|j: int| 0 <= j < before.len() && (#[trigger] before[j]).1
                        == actions@[m];
                    if j < at {
                        assert(list@[j] == before[j]);
                    } else {
                        assert(list@[j + 1] == before[j]);
                    }
                }
                assert forall|i: int, j: int| 0 <= i < j < list@.len() implies naturally_before(
                    (#[trigger] list@[i]).0.0,
                    (#[trigger] list@[j]).0.0,
                ) by {
                    if j < at {
                    } else if j == at {
                        assert(list@[i] == before[i]);
                    } else if i < at {
                        assert(list@[j] == before[j - 1]);
                        assert(list@[i] == before[i]);
                    } else if i == at {
                        assert(list@[j] == before[j - 1]);
                        if at < j - 1 {
                            crate::key::lemma_natural_order_transitive(
                                key.0,
                                before[at as int].0.0,
                                before[j - 1].0.0,
                            );
                        }
                    } else {
                        assert(list@[i] == before[i - 1] && list@[j] == before[j - 1]);
                    }
                }
            }
        }
        k += 1;
    }
    proof {
        assert forall|action: Action| is_listed(list@, action) by {
            assert(actions@[place_of(action)] == action);
        }
    }
    list
}

/// The action that `key` is bound to by name, if any.
pub fn action_by_key(key: Key) -> (r: Option<Action>)
    ensures
        match r {
            Some(action) => bound_key(action) == key,
            None => forall|action: Action| bound_key(action) != key,
        },
{
    match key {
        Key::Char(':') => Some(Action::Command),
        Key::Char('i') => Some(Action::Insert),
        Key::Char('I') => Some(Action::InsertExtend),
        Key::Ctrl('d') => Some(Action::MoveDownPage),
        Key::Ctrl('D') => Some(Action::ExtendDownPage),
        Key::Char('a') => Some(Action::LineAppend),
        Key::Char('A') => Some(Action::LineAppendExtend),
        Key::Ctrl('p') => Some(Action::OpenFile),
        Key::Ctrl('u') => Some(Action::MoveUpPage),
        Key::Ctrl('U') => Some(Action::ExtendUpPage),
        Key::Char('>') => Some(Action::IndentRight),
        Key::Char('<') => Some(Action::IndentLeft),
        Key::Char('o') => Some(Action::OpenLine),
        Key::Alt('i') => Some(Action::SelectInnerSurrounding),
        Key::Alt('I') => Some(Action::ExpandInnerSurrounding),
        _ => None,
    }
}

} // verus!

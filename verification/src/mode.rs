//! The modes in which keys are handled.
//!
//! A key means one thing in normal mode and another while text is typed, a
//! command line is written, a file is sought, or the second key of a jump is
//! awaited. The state holds the mode it is in as a value of [`Mode`]; the
//! handling of a key in each mode is in the module of that mode.

pub mod command;
pub mod find;
pub mod goto;
pub mod insert;
pub mod normal;

use vstd::prelude::*;

verus! {

/// Normal mode: keys are commands. Digits typed before a command count how
/// often it is to be done.
#[derive(Clone, Debug, Default, PartialEq, Eq)]
pub struct Normal {
    /// The count typed so far, if any.
    pub num_prefix: Option<usize>,
}

/// Insert mode: keys are text.
#[derive(Clone, Debug, Default)]
pub struct Insert {
    /// Whether what is typed joins the selections, or the selections give
    /// way to carets.
    pub extend: bool,
}

/// Command mode: keys write a command line, which the enter key runs.
#[derive(Clone, Debug, Default)]
pub struct Command {
    /// The line as written so far.
    pub cmd: String,
}

/// Find mode: keys write a query for files, and the enter key opens the
/// first file found.
#[derive(Default, Debug, Clone)]
pub struct Find {
    /// The query as written so far.
    pub match_str: String,
    /// The paths found for the query, best first.
    pub cur_matches: Vec<String>,
}

/// Goto mode: the next key says where to jump.
#[derive(Clone, Debug, Default)]
pub struct Goto;

/// The mode in which keys are handled.
#[derive(Clone, Debug)]
pub enum Mode {
    Normal(Normal),
    Insert(Insert),
    Command(Command),
    Find(Find),
    Goto(Goto),
}

/// The texts of the strings `v`.
pub open spec fn strings_of(v: Seq<String>) -> Seq<Seq<char>> {
    Seq::new(v.len(), |i: int| v[i]@)
}

/// What a mode is taken to be in contracts.
pub ghost enum ModeView {
    Normal { num_prefix: Option<usize> },
    Insert { extend: bool },
    Command { cmd: Seq<char> },
    Find { match_str: Seq<char>, cur_matches: Seq<Seq<char>> },
    Goto,
}

impl View for Mode {
    type V = ModeView;

    open spec fn view(&self) -> ModeView {
        match *self {
            Mode::Normal(normal) => ModeView::Normal { num_prefix: normal.num_prefix },
            Mode::Insert(insert) => ModeView::Insert { extend: insert.extend },
            Mode::Command(command) => ModeView::Command { cmd: command.cmd@ },
            Mode::Find(find) => ModeView::Find {
                match_str: find.match_str@,
                cur_matches: strings_of(find.cur_matches@),
            },
            Mode::Goto(_) => ModeView::Goto,
        }
    }
}

impl ModeView {
    /// Normal mode with no count typed.
    pub open spec fn normal() -> ModeView {
        ModeView::Normal { num_prefix: None }
    }

    /// The name of the mode.
    pub open spec fn name(self) -> Seq<char> {
        match self {
            ModeView::Normal { .. } => "normal"@,
            ModeView::Insert { .. } => "insert"@,
            ModeView::Command { .. } => "command"@,
            ModeView::Find { .. } => "find"@,
            ModeView::Goto => "goto"@,
        }
    }

    /// What the mode shows in the command line, if anything: the line of
    /// command mode, behind a colon.
    pub open spec fn cmd_string(self) -> Option<Seq<char>> {
        match self {
            ModeView::Command { cmd } => Some(seq![':'] + cmd),
            _ => None,
        }
    }
}

impl Command {
    /// Command mode with an empty line.
    pub fn new() -> (r: Command)
        ensures
            r.cmd@.len() == 0,
    {
        Command { cmd: String::new() }
    }
}

impl Insert {
    /// Insert mode in which the selections give way to carets.
    pub fn new_normal() -> (r: Insert)
        ensures
            !r.extend,
    {
        Insert { extend: false }
    }

    /// Insert mode in which what is typed joins the selections.
    pub fn new_extend() -> (r: Insert)
        ensures
            r.extend,
    {
        Insert { extend: true }
    }
}

impl Find {
    /// Find mode with an empty query and nothing found.
    pub fn new() -> (r: Find)
        ensures
            r.match_str@.len() == 0,
            r.cur_matches@.len() == 0,
    {
        Find { match_str: String::new(), cur_matches: Vec::new() }
    }
}

impl Mode {
    /// Normal mode with no count typed.
    pub fn normal() -> (r: Mode)
        ensures
            r@ == ModeView::normal(),
    {
        Mode::Normal(Normal { num_prefix: None })
    }

    /// The name of the mode.
    pub fn name(&self) -> (r: &'static str)
        ensures
            r@ == self@.name(),
    {
        match self {
            Mode::Normal(_) => "normal",
            Mode::Insert(_) => "insert",
            Mode::Command(_) => "command",
            Mode::Find(_) => "find",
            Mode::Goto(_) => "goto",
        }
    }

    /// The first four characters of the name of the mode.
    pub fn name4(&self) -> (r: &'static str)
        ensures
            r@ == self@.name().subrange(0, 4),
    {
        proof {
            reveal_strlit("normal");
            reveal_strlit("insert");
            reveal_strlit("command");
            reveal_strlit("find");
            reveal_strlit("goto");
        }
        self.name().substring_char(0, 4)
    }

    /// What the mode shows in the command line, if anything.
    pub fn cmd_string(&self) -> (r: Option<String>)
        ensures
            match r {
                Some(s) => self@.cmd_string() == Some(s@),
                None => self@.cmd_string() is None,
            },
    {
        match self {
            Mode::Command(command) => {
                let mut line = crate::buffer::edit::char_string(':');
                line.append(command.cmd.as_str());
                Some(line)
            },
            _ => None,
        }
    }

    /// The count typed so far, in normal mode.
    pub fn get_num_prefix(&self) -> (r: Option<usize>)
        ensures
            r == match self@ {
                ModeView::Normal { num_prefix } => num_prefix,
                _ => None,
            },
    {
        match self {
            Mode::Normal(normal) => normal.num_prefix,
            _ => None,
        }
    }
}

} // verus!

//! Command mode: keys write a command line, and the enter key runs it.
//!
//! A command line is a command and what it takes, set apart by white
//! space: `q` ends the editor, `e` opens the files named, `w` writes the
//! current buffer (to the path named, if one is), `db` closes it, and `bn`
//! and `bp` go to the buffer that follows or precedes it.

use crate::key::Key;
use crate::mode::find::without_last;
use crate::mode::{Command, Mode, ModeView};
use crate::state::{requests_of, Request, RequestView, State, StateView};
use crate::util::chars::whitespace;
use vstd::prelude::*;

verus! {

/// The words of `s` from offset `i` on, behind the words `done` and the
/// word `current` that is being read: a word is a longest stretch without
/// white space.
pub open spec fn words_from(s: Seq<char>, i: int, current: Seq<char>, done: Seq<Seq<char>>) -> Seq<
    Seq<char>,
>
    decreases s.len() - i,
{
    if i < 0 || i >= s.len() {
        if current.len() > 0 {
            done.push(current)
        } else {
            done
        }
    } else if whitespace(s[i]) {
        words_from(
            s,
            i + 1,
            Seq::empty(),
            if current.len() > 0 {
                done.push(current)
            } else {
                done
            },
        )
    } else {
        words_from(s, i + 1, current.push(s[i]), done)
    }
}

/// The words of `s`: its longest stretches without white space, in order.
pub open spec fn words_of(s: Seq<char>) -> Seq<Seq<char>> {
    words_from(s, 0, Seq::empty(), Seq::empty())
}

/// Every one of the words `words` holds a character, and none holds white
/// space.
pub open spec fn are_words(words: Seq<Seq<char>>) -> bool {
    forall|k: int|
        0 <= k < words.len() ==> (#[trigger] words[k]).len() > 0 && forall|j: int|
            0 <= j < words[k].len() ==> !whitespace(#[trigger] words[k][j])
}

proof fn lemma_words_from(s: Seq<char>, i: int, current: Seq<char>, done: Seq<Seq<char>>)
    requires
        0 <= i,
        are_words(done),
        forall|j: int| 0 <= j < current.len() ==> !whitespace(#[trigger] current[j]),
    ensures
        are_words(words_from(s, i, current, done)),
    decreases s.len() - i,
{
    let closed = if current.len() > 0 {
        done.push(current)
    } else {
        done
    };
    assert(are_words(closed)) by {
        assert forall|k: int| 0 <= k < closed.len() implies (#[trigger] closed[k]).len() > 0
            && forall|j: int| 0 <= j < closed[k].len() ==> !whitespace(#[trigger] closed[k][j]) by {
            if k < done.len() {
                assert(closed[k] == done[k]);
            }
        }
    }
    if i < s.len() {
        if whitespace(s[i]) {
            lemma_words_from(s, i + 1, Seq::empty(), closed);
        } else {
            lemma_words_from(s, i + 1, current.push(s[i]), done);
        }
    }
}

/// The words of a line are what white space sets apart: each holds a
/// character, and none holds white space.
pub proof fn lemma_words_of(s: Seq<char>)
    ensures
        are_words(words_of(s)),
{
    lemma_words_from(s, 0, Seq::empty(), Seq::empty());
}

/// The words of `s`.
pub fn split_words(s: &str) -> (words: Vec<String>)
    ensures
        crate::mode::strings_of(words@) == words_of(s@),
        are_words(crate::mode::strings_of(words@)),
{
    proof {
        lemma_words_of(s@);
    }
    let n = s.unicode_len();
    let mut words: Vec<String> = Vec::new();
    let mut current = String::new();
    let mut i: usize = 0;
    assert(crate::mode::strings_of(words@) =~= Seq::<Seq<char>>::empty());
    while i < n
        invariant
            i <= n,
            n == s@.len(),
            words_of(s@) == words_from(s@, i as int, current@, crate::mode::strings_of(words@)),
        decreases n - i,
    {
        let ch = s.get_char(i);
        let ghost before = crate::mode::strings_of(words@);
        if ch.is_whitespace() {
            if current.as_str().unicode_len() > 0 {
                let ghost word = current@;
                words.push(current);
                assert(crate::mode::strings_of(words@) =~= before.push(word));
                current = String::new();
            } else {
                assert(current@ =~= Seq::<char>::empty());
            }
        } else {
            current.push(ch);
        }
        i += 1;
    }
    let ghost before = crate::mode::strings_of(words@);
    if current.as_str().unicode_len() > 0 {
        let ghost word = current@;
        words.push(current);
        assert(crate::mode::strings_of(words@) =~= before.push(word));
    }
    words
}

/// The state after the files at `paths` are opened, one after the other.
pub open spec fn opened_all(v: StateView, paths: Seq<Seq<char>>) -> StateView
    decreases paths.len(),
{
    if paths.len() == 0 {
        v
    } else {
        opened_all(v, paths.drop_last()).opening(paths.last())
    }
}

/// What is asked of the host when the files at `paths` are opened, one
/// after the other.
pub open spec fn opened_all_requests(v: StateView, paths: Seq<Seq<char>>) -> Seq<RequestView>
    decreases paths.len(),
{
    if paths.len() == 0 {
        Seq::empty()
    } else {
        opened_all_requests(v, paths.drop_last()) + opened_all(
            v,
            paths.drop_last(),
        ).opening_requests(paths.last())
    }
}

impl StateView {
    /// The state after the command line `cmd` is run.
    pub open spec fn run_command(self, cmd: Seq<char>) -> StateView {
        let words = words_of(cmd);
        if words.len() == 0 {
            self
        } else if words[0] == "q"@ {
            StateView { quit: true, ..self }
        } else if words[0] == "bn"@ {
            StateView { cur: self.next_cur(), ..self }
        } else if words[0] == "bp"@ {
            StateView { cur: self.prev_cur(), ..self }
        } else if words[0] == "e"@ {
            opened_all(self, words.subrange(1, words.len() as int))
        } else if words[0] == "db"@ {
            self.closing()
        } else if words[0] == "w"@ {
            self.writing(
                if words.len() > 1 {
                    Some(words[1])
                } else {
                    None
                },
            )
        } else {
            StateView { msg: Some("unrecognized command: "@ + cmd), ..self }
        }
    }

    /// What is asked of the host when the command line `cmd` is run.
    pub open spec fn run_command_requests(self, cmd: Seq<char>) -> Seq<RequestView> {
        let words = words_of(cmd);
        if words.len() == 0 {
            Seq::empty()
        } else if words[0] == "q"@ {
            Seq::empty()
        } else if words[0] == "bn"@ {
            Seq::empty()
        } else if words[0] == "bp"@ {
            Seq::empty()
        } else if words[0] == "e"@ {
            opened_all_requests(self, words.subrange(1, words.len() as int))
        } else if words[0] == "db"@ {
            Seq::empty()
        } else if words[0] == "w"@ {
            self.writing_requests(
                if words.len() > 1 {
                    Some(words[1])
                } else {
                    None
                },
            )
        } else {
            Seq::empty()
        }
    }

    /// The state after a key in command mode. Escape leads back to normal
    /// mode. The enter key runs the line and leads back to normal mode.
    /// Characters and backspace change the line. Any other key does
    /// nothing.
    pub open spec fn command_handle(self, cmd: Seq<char>, key: Key) -> StateView {
        match key {
            Key::Esc => self.in_mode(ModeView::normal()),
            Key::Char('\n') => self.run_command(cmd).in_mode(ModeView::normal()),
            Key::Char(ch) => StateView { mode: ModeView::Command { cmd: cmd.push(ch) }, ..self },
            Key::Backspace => StateView {
                mode: ModeView::Command { cmd: without_last(cmd) },
                ..self
            },
            _ => self,
        }
    }

    /// What is asked of the host after a key in command mode.
    pub open spec fn command_requests(self, cmd: Seq<char>, key: Key) -> Seq<RequestView> {
        match key {
            Key::Char('\n') => self.run_command_requests(cmd),
            _ => Seq::empty(),
        }
    }
}

/// Whether the string holds just the characters of `word`.
fn is_word(s: &String, word: &str) -> (r: bool)
    ensures
        r == (s@ == word@),
{
    *s == String::from_str(word)
}

impl State {
    /// Runs the command line `cmd`.
    pub(crate) fn handle_command_complete(&mut self, cmd: &String) -> (requests: Vec<Request>)
        requires
            old(self).wf(),
        ensures
            final(self)@ == old(self)@.run_command(cmd@),
            requests_of(requests@) == old(self)@.run_command_requests(cmd@),
            final(self).wf(),
    {
        let mut requests: Vec<Request> = Vec::new();
        let words = split_words(cmd.as_str());
        let ghost given = words_of(cmd@);
        assert(requests_of(requests@) =~= Seq::<RequestView>::empty());
        if words.len() == 0 {
            return requests;
        }
        assert(words@[0]@ == given[0]);
        if is_word(&words[0], "q") {
            self.quit = true;
        } else if is_word(&words[0], "bn") {
            self.buffer_next();
        } else if is_word(&words[0], "bp") {
            self.buffer_prev();
        } else if is_word(&words[0], "e") {
            let ghost paths = given.subrange(1, given.len() as int);
            let mut k: usize = 1;
            assert(paths.take(0).len() == 0);
            while k < words.len()
                invariant
                    1 <= k <= words@.len(),
                    crate::mode::strings_of(words@) == given,
                    paths == given.subrange(1, given.len() as int),
                    self.wf(),
                    self@ == opened_all(old(self)@, paths.take(k - 1)),
                    requests_of(requests@) == opened_all_requests(old(self)@, paths.take(k - 1)),
                decreases words@.len() - k,
            {
                let ghost before = requests_of(requests@);
                let ghost path = words@[k as int]@;
                assert(path == given[k as int]);
                proof {
                    assert(paths.take(k as int).drop_last() =~= paths.take(k - 1));
                    assert(paths.take(k as int).last() == path);
                }
                match self.open_buffer(words[k].clone()) {
                    Some(request) => {
                        requests.push(request);
                        assert(requests_of(requests@) =~= before + seq![request@]);
                    },
                    None => {
                        assert(requests_of(requests@) =~= before + Seq::<RequestView>::empty());
                    },
                }
                k += 1;
            }
            assert(paths.take(words@.len() - 1) =~= paths);
        } else if is_word(&words[0], "db") {
            self.delete_buffer();
        } else if is_word(&words[0], "w") {
            let path = if words.len() > 1 {
                assert(words@[1]@ == given[1]);
                Some(words[1].clone())
            } else {
                None
            };
            match self.write_buffer(path) {
                Some(request) => {
                    requests.push(request);
                    assert(requests_of(requests@) =~= seq![request@]);
                },
                None => {},
            }
        } else {
            let mut msg = String::from_str("unrecognized command: ");
            msg.append(cmd.as_str());
            self.msg = Some(msg);
        }
        requests
    }

    /// Handles a key in command mode.
    pub(crate) fn handle_command(&mut self, key: Key) -> (requests: Vec<Request>)
        requires
            old(self).wf(),
            old(self)@.mode is Command,
        ensures
            final(self)@ == old(self)@.command_handle(old(self)@.mode->Command_cmd, key),
            requests_of(requests@) == old(self)@.command_requests(
                old(self)@.mode->Command_cmd,
                key,
            ),
            final(self).wf(),
    {
        let mode = self.take_mode();
        match mode {
            Mode::Command(mut command) => {
                match key {
                    Key::Esc => {
                        self.mode = Mode::Command(command);
                        self.set_mode(Mode::normal());
                    },
                    Key::Char('\n') => {
                        let line = command.cmd.clone();
                        self.mode = Mode::Command(command);
                        let requests = self.handle_command_complete(&line);
                        self.set_mode(Mode::normal());
                        return requests;
                    },
                    Key::Char(ch) => {
                        command.cmd.push(ch);
                        self.mode = Mode::Command(command);
                    },
                    Key::Backspace => {
                        let _ = command.cmd.pop();
                        self.mode = Mode::Command(command);
                    },
                    _ => {
                        self.mode = Mode::Command(command);
                    },
                }
            },
            other => {
                self.mode = other;
            },
        }
        let requests: Vec<Request> = Vec::new();
        assert(requests_of(requests@) =~= Seq::<RequestView>::empty());
        requests
    }
}

} // verus!

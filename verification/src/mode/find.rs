//! Find mode: keys write a query for files; the host seeks them as the
//! query grows, and the enter key opens the first file found.

use crate::key::Key;
use crate::mode::{strings_of, Find, Mode, ModeView};
use crate::state::{Request, RequestView, State, StateView};
use vstd::prelude::*;

verus! {

/// `s` without its last character, where it has one.
pub open spec fn without_last(s: Seq<char>) -> Seq<char> {
    if s.len() == 0 {
        s
    } else {
        s.drop_last()
    }
}

impl StateView {
    /// The state after find mode is entered: the query is empty, and
    /// nothing is found yet.
    pub open spec fn finding(self) -> StateView {
        self.in_mode(ModeView::Find { match_str: Seq::empty(), cur_matches: Seq::empty() })
    }

    /// The state after a key in find mode. Escape leads back to normal
    /// mode. The enter key opens the first path found, where there is one,
    /// and leads back to normal mode. Backspace and characters change the
    /// query. Any other key does nothing.
    pub open spec fn find_handle(
        self,
        match_str: Seq<char>,
        cur_matches: Seq<Seq<char>>,
        key: Key,
    ) -> StateView {
        match key {
            Key::Esc => self.in_mode(ModeView::normal()),
            Key::Backspace => StateView {
                mode: ModeView::Find { match_str: without_last(match_str), cur_matches },
                ..self
            },
            Key::Char('\n') => (if cur_matches.len() > 0 {
                self.opening(cur_matches[0])
            } else {
                self
            }).in_mode(ModeView::normal()),
            Key::Char(ch) => StateView {
                mode: ModeView::Find { match_str: match_str.push(ch), cur_matches },
                ..self
            },
            _ => self,
        }
    }

    /// What is asked of the host after a key in find mode: to read the file
    /// that the enter key opens, unless it is open; to seek files for the
    /// query after a key that changes it.
    pub open spec fn find_requests(
        self,
        match_str: Seq<char>,
        cur_matches: Seq<Seq<char>>,
        key: Key,
    ) -> Seq<RequestView> {
        match key {
            Key::Esc => Seq::empty(),
            Key::Backspace => seq![RequestView::Find(without_last(match_str))],
            Key::Char('\n') => if cur_matches.len() > 0 {
                self.opening_requests(cur_matches[0])
            } else {
                Seq::empty()
            },
            Key::Char(ch) => seq![RequestView::Find(match_str.push(ch))],
            _ => Seq::empty(),
        }
    }
}

impl State {
    /// Enters find mode, and asks for the files that the empty query stands
    /// for.
    pub(crate) fn start_finding(&mut self) -> (request: Request)
        requires
            old(self).wf(),
        ensures
            final(self)@ == old(self)@.finding(),
            request@ == RequestView::Find(Seq::empty()),
            final(self).wf(),
    {
        let find = Find::new();
        assert(strings_of(find.cur_matches@) =~= Seq::<Seq<char>>::empty());
        assert(find.match_str@ =~= Seq::<char>::empty());
        self.set_mode(Mode::Find(find));
        Request::Find(String::new())
    }

    /// Handles a key in find mode.
    pub(crate) fn handle_find(&mut self, key: Key) -> (requests: Vec<Request>)
        requires
            old(self).wf(),
            old(self)@.mode is Find,
        ensures
            final(self)@ == old(self)@.find_handle(
                old(self)@.mode->Find_match_str,
                old(self)@.mode->Find_cur_matches,
                key,
            ),
            crate::state::requests_of(requests@) == old(self)@.find_requests(
                old(self)@.mode->Find_match_str,
                old(self)@.mode->Find_cur_matches,
                key,
            ),
            final(self).wf(),
    {
        let mut requests: Vec<Request> = Vec::new();
        let mode = self.take_mode();
        match mode {
            Mode::Find(mut find) => {
                match key {
                    Key::Esc => {
                        self.mode = Mode::Find(find);
                        self.set_mode(Mode::normal());
                    },
                    Key::Backspace => {
                        let _ = find.match_str.pop();
                        requests.push(Request::Find(find.match_str.clone()));
                        self.mode = Mode::Find(find);
                    },
                    Key::Char('\n') => {
                        if find.cur_matches.len() > 0 {
                            let path = find.cur_matches[0].clone();
                            self.mode = Mode::Find(find);
                            match self.open_buffer(path) {
                                Some(request) => {
                                    requests.push(request);
                                },
                                None => {},
                            }
                        } else {
                            self.mode = Mode::Find(find);
                        }
                        self.set_mode(Mode::normal());
                    },
                    Key::Char(ch) => {
                        find.match_str.push(ch);
                        requests.push(Request::Find(find.match_str.clone()));
                        self.mode = Mode::Find(find);
                    },
                    _ => {
                        self.mode = Mode::Find(find);
                    },
                }
            },
            other => {
                self.mode = other;
            },
        }
        assert(crate::state::requests_of(requests@) =~= old(self)@.find_requests(
            old(self)@.mode->Find_match_str,
            old(self)@.mode->Find_cur_matches,
            key,
        ));
        requests
    }
}

} // verus!

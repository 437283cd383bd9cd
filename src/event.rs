//! Grouping lines into server-sent events and recognising the terminal
//! sentinel.
use vstd::prelude::*;
use crate::frame::NEWLINE;

verus! {

/// `data:`, the prefix of a line that carries payload.
pub open spec fn data_prefix() -> Seq<u8> {
    seq![100u8, 97u8, 116u8, 97u8, 58u8]
}

/// `[DONE]`, the payload that ends the stream.
pub open spec fn terminal_marker() -> Seq<u8> {
    seq![91u8, 68u8, 79u8, 78u8, 69u8, 93u8]
}

pub open spec fn is_data_line(line: Seq<u8>) -> bool {
    line.len() >= 5 && line.subrange(0, 5) == data_prefix()
}

/// What a data line contributes: the text after `data:`, one leading space
/// removed.
pub open spec fn data_body(line: Seq<u8>) -> Seq<u8> {
    let rest = line.subrange(5, line.len() as int);
    if rest.len() > 0 && rest[0] == 32u8 {
        rest.subrange(1, rest.len() as int)
    } else {
        rest
    }
}

/// The assembler between two lines: the payload of the event being built
/// (`None` before its first data line) and whether the sentinel was seen.
pub struct EventState {
    pub payload: Option<Seq<u8>>,
    pub done: bool,
}

pub open spec fn initial_event_state() -> EventState {
    EventState { payload: None, done: false }
}

/// One line: a data line adds its body (joined to earlier bodies by a
/// newline), a blank line closes the event, any other line is ignored. A
/// closed event is handed out unless it is the sentinel, which ends the
/// stream instead.
pub open spec fn on_line(s: EventState, line: Seq<u8>) -> (EventState, Option<Seq<u8>>) {
    if line.len() == 0 {
        match s.payload {
            None => (s, None),
            Some(p) => if p == terminal_marker() {
                (EventState { payload: None, done: true }, None)
            } else {
                (EventState { payload: None, done: s.done }, Some(p))
            },
        }
    } else if is_data_line(line) {
        let body = data_body(line);
        let payload = match s.payload {
            None => body,
            Some(p) => p.push(NEWLINE) + body,
        };
        (EventState { payload: Some(payload), done: s.done }, None)
    } else {
        (s, None)
    }
}

/// The events handed out over `lines`, and the state after them. Lines after
/// the sentinel are not looked at.
pub open spec fn on_lines(s: EventState, lines: Seq<Seq<u8>>) -> (EventState, Seq<Seq<u8>>)
    decreases lines.len(),
{
    if lines.len() == 0 {
        (s, Seq::<Seq<u8>>::empty())
    } else {
        let (t, events) = on_lines(s, lines.drop_last());
        if t.done {
            (t, events)
        } else {
            let (u, e) = on_line(t, lines.last());
            match e {
                Some(p) => (u, events.push(p)),
                None => (u, events),
            }
        }
    }
}

/// Assembling `a` then `b` gives what assembling them as one gives.
pub proof fn lemma_on_lines_concat(s: EventState, a: Seq<Seq<u8>>, b: Seq<Seq<u8>>)
    ensures
        ({
            let (t, e1) = on_lines(s, a);
            let (u, e2) = on_lines(t, b);
            on_lines(s, a + b) == (u, e1 + e2)
        }),
    decreases b.len(),
{
    let (t, e1) = on_lines(s, a);
    if b.len() == 0 {
        assert(a + b =~= a);
        assert(e1 + Seq::<Seq<u8>>::empty() =~= e1);
    } else {
        let b0 = b.drop_last();
        lemma_on_lines_concat(s, a, b0);
        assert((a + b).drop_last() =~= a + b0);
        assert((a + b).last() == b.last());
        let (u0, e2) = on_lines(t, b0);
        if !u0.done {
            let (v, e) = on_line(u0, b.last());
            match e {
                Some(p) => {
                    assert((e1 + e2).push(p) =~= e1 + e2.push(p));
                },
                None => {},
            }
        }
    }
}

/// Once the sentinel is seen, further lines change nothing.
pub proof fn lemma_on_lines_done(s: EventState, lines: Seq<Seq<u8>>)
    requires
        s.done,
    ensures
        on_lines(s, lines) == (s, Seq::<Seq<u8>>::empty()),
    decreases lines.len(),
{
    if lines.len() > 0 {
        lemma_on_lines_done(s, lines.drop_last());
    }
}

/// Collects the data lines of one event at a time.
pub struct EventAssembler {
    payload: Vec<u8>,
    has_data: bool,
    done: bool,
}

pub fn is_data_line_exec(line: &[u8]) -> (r: bool)
    ensures
        r == is_data_line(line@),
{
    let r = line.len() >= 5 && line[0] == 100u8 && line[1] == 97u8 && line[2] == 116u8
        && line[3] == 97u8 && line[4] == 58u8;
    proof {
        if line@.len() >= 5 {
            if r {
                assert(line@.subrange(0, 5) =~= data_prefix());
            } else if line@.subrange(0, 5) == data_prefix() {
                assert(line@.subrange(0, 5)[0] == line@[0]);
                assert(line@.subrange(0, 5)[1] == line@[1]);
                assert(line@.subrange(0, 5)[2] == line@[2]);
                assert(line@.subrange(0, 5)[3] == line@[3]);
                assert(line@.subrange(0, 5)[4] == line@[4]);
            }
        }
    }
    r
}

/// Whether `payload` is the terminal sentinel `[DONE]`.
pub fn is_terminal_marker(payload: &Vec<u8>) -> (r: bool)
    ensures
        r == (payload@ == terminal_marker()),
{
    let r = payload.len() == 6 && payload[0] == 91u8 && payload[1] == 68u8 && payload[2] == 79u8
        && payload[3] == 78u8 && payload[4] == 69u8 && payload[5] == 93u8;
    proof {
        if r {
            assert(payload@ =~= terminal_marker());
        }
    }
    r
}

impl EventAssembler {
    pub closed spec fn state(&self) -> EventState {
        EventState {
            payload: if self.has_data {
                Some(self.payload@)
            } else {
                None
            },
            done: self.done,
        }
    }

    pub fn new() -> (r: EventAssembler)
        ensures
            r.state() == initial_event_state(),
    {
        EventAssembler { payload: Vec::new(), has_data: false, done: false }
    }

    pub fn is_done(&self) -> (r: bool)
        ensures
            r == self.state().done,
    {
        self.done
    }

    /// Takes one line; returns the payload of the event that it closes, if
    /// any.
    pub fn accept_line(&mut self, line: &[u8]) -> (r: Option<Vec<u8>>)
        ensures
            on_line(old(self).state(), line@) == (
                final(self).state(),
                match r {
                    Some(p) => Some(p@),
                    None => None,
                },
            ),
    {
        if line.len() == 0 {
            if !self.has_data {
                return None;
            }
            let mut p: Vec<u8> = Vec::new();
            std::mem::swap(&mut p, &mut self.payload);
            self.has_data = false;
            if is_terminal_marker(&p) {
                self.done = true;
                None
            } else {
                Some(p)
            }
        } else if is_data_line_exec(line) {
            let mut start: usize = 5;
            if line.len() > 5 && line[5] == 32u8 {
                start = 6;
            }
            let ghost prefix = if self.has_data {
                self.payload@.push(NEWLINE)
            } else {
                Seq::<u8>::empty()
            };
            if self.has_data {
                self.payload.push(NEWLINE);
            } else {
                self.payload.clear();
            }
            let mut i: usize = start;
            while i < line.len()
                invariant
                    start <= i <= line@.len(),
                    self.has_data == old(self).has_data,
                    self.done == old(self).done,
                    self.payload@ == prefix + line@.subrange(start as int, i as int),
                decreases line@.len() - i,
            {
                self.payload.push(line[i]);
                proof {
                    assert(line@.subrange(start as int, i + 1) =~= line@.subrange(
                        start as int,
                        i as int,
                    ).push(line@[i as int]));
                }
                i = i + 1;
            }
            proof {
                let rest = line@.subrange(5, line@.len() as int);
                assert(rest.len() > 0 ==> rest[0] == line@[5]);
                if start == 5 {
                    assert(rest =~= line@.subrange(start as int, line@.len() as int));
                }
                if start == 6 {
                    assert(line@.subrange(6, line@.len() as int) =~= rest.subrange(
                        1,
                        rest.len() as int,
                    ));
                }
                assert(prefix + line@.subrange(start as int, line@.len() as int) =~= prefix
                    + data_body(line@));
                if !old(self).has_data {
                    assert(prefix + data_body(line@) =~= data_body(line@));
                }
            }
            self.has_data = true;
            None
        } else {
            None
        }
    }
}

} // verus!

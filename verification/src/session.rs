//! The keystroke-driven review session.
//!
//! One raw input byte at a time is mapped to what the session does
//! next: decide the current branch's fate (`Keep`, `Delete`, `Quit`)
//! or stay at the prompt after printing help, a reminder, or an
//! invalid-selection message. The mapping is the spec function
//! `dispatch_spec`, an explicit table; `dispatch_key` is its
//! executable twin.

use vstd::prelude::*;
use crate::branch::{Branch, BranchView};

verus! {

/// The fate decided for one branch: keep it, delete it, or stop the
/// whole session.
#[derive(Clone, Copy, PartialEq, Eq, Structural, Debug)]
pub enum Action {
    Keep,
    Delete,
    Quit,
}

/// A message the session asks its surroundings to print.
#[derive(Clone, Copy, PartialEq, Eq, Structural, Debug)]
pub enum Msg {
    /// The four-line help legend.
    Help,
    /// The bare-carriage-return reminder to pick an option.
    Reminder,
    /// The invalid-selection message naming the offending byte.
    Invalid(u8),
    /// Confirmation that the current branch is kept.
    Keeping,
    /// Confirmation that the current branch is being deleted.
    Deleting,
    /// Confirmation that the session stops here.
    Quitting,
    /// The notice that no branch is up for review.
    Notice,
}

/// What one keystroke means at a prompt: either the branch's fate is
/// decided, or the session stays at the prompt and prints a message.
#[derive(Clone, Copy, PartialEq, Eq, Structural, Debug)]
pub enum KeyResult {
    Decided(Action),
    Stay(Msg),
}

/// The bytes the dispatch table names: the letters `k`, `d`, `q`,
/// `c`, the question mark, and the carriage return.
pub const KEY_KEEP: u8 = 107;

pub const KEY_DELETE: u8 = 100;

pub const KEY_QUIT: u8 = 113;

pub const KEY_HELP: u8 = 63;

pub const KEY_RETURN: u8 = 13;

pub const LETTER_C: u8 = 99;

/// The control codes that quit: Ctrl-C and Ctrl-D, the low five bits
/// of the letters' bytes (see `lemma_ctrl_codes`).
pub const CTRL_C: u8 = 3;

pub const CTRL_D: u8 = 4;

/// The control code a raw terminal delivers for Ctrl plus the letter
/// whose byte is `c`: the low five bits of the byte.
pub fn to_ctrl_char(c: u8) -> (r: u8)
    ensures
        r == (c & 0x1f),
{
    c & 0x1f
}

/// The dispatch table of the prompt, written out: `k` keeps, `d`
/// deletes, `q`, Ctrl-C and Ctrl-D quit, `?` shows help, a bare
/// carriage return reminds, and every other byte is an invalid
/// selection. The three `Stay` outcomes leave the prompt standing.
pub open spec fn dispatch_spec(key: u8) -> KeyResult {
    if key == KEY_KEEP {
        KeyResult::Decided(Action::Keep)
    } else if key == KEY_DELETE {
        KeyResult::Decided(Action::Delete)
    } else if key == KEY_QUIT || key == CTRL_C || key == CTRL_D {
        KeyResult::Decided(Action::Quit)
    } else if key == KEY_HELP {
        KeyResult::Stay(Msg::Help)
    } else if key == KEY_RETURN {
        KeyResult::Stay(Msg::Reminder)
    } else {
        KeyResult::Stay(Msg::Invalid(key))
    }
}

/// The quit control codes are exactly the terminal control codes of
/// the letters `c` and `d`.
pub proof fn lemma_ctrl_codes()
    ensures
        CTRL_C == (LETTER_C & 0x1f),
        CTRL_D == (KEY_DELETE & 0x1f),
{
    assert((99u8 & 0x1f) == 3u8) by (bit_vector);
    assert((100u8 & 0x1f) == 4u8) by (bit_vector);
}

/// Maps one input byte to its outcome, exactly as `dispatch_spec`
/// tabulates it; no byte is refused.
pub fn dispatch_key(key: u8) -> (r: KeyResult)
    ensures
        r == dispatch_spec(key),
{
    proof {
        lemma_ctrl_codes();
    }
    if key == KEY_KEEP {
        KeyResult::Decided(Action::Keep)
    } else if key == KEY_DELETE {
        KeyResult::Decided(Action::Delete)
    } else if key == KEY_QUIT || key == to_ctrl_char(LETTER_C) || key == to_ctrl_char(KEY_DELETE) {
        KeyResult::Decided(Action::Quit)
    } else if key == KEY_HELP {
        KeyResult::Stay(Msg::Help)
    } else if key == KEY_RETURN {
        KeyResult::Stay(Msg::Reminder)
    } else {
        KeyResult::Stay(Msg::Invalid(key))
    }
}

/// The confirmation printed when an action is decided.
pub open spec fn decide_msg(a: Action) -> Msg {
    match a {
        Action::Keep => Msg::Keeping,
        Action::Delete => Msg::Deleting,
        Action::Quit => Msg::Quitting,
    }
}

/// What one branch's prompt loop does on an input script: the action
/// it settles on, how many bytes it reads, and the messages it prints
/// along the way. An exhausted script quits the session.
#[verifier::ext_equal]
pub ghost struct PromptSpec {
    pub action: Action,
    pub used: int,
    pub msgs: Seq<Msg>,
}

/// The prompt loop, read off the dispatch table: `Stay` outcomes
/// print their message and read on; a `Decided` outcome prints its
/// confirmation and ends the loop; an empty script quits.
pub open spec fn prompt_spec(input: Seq<u8>) -> PromptSpec
    decreases input.len(),
{
    if input.len() == 0 {
        PromptSpec { action: Action::Quit, used: 0, msgs: seq![Msg::Quitting] }
    } else {
        match dispatch_spec(input[0]) {
            KeyResult::Decided(a) => PromptSpec { action: a, used: 1, msgs: seq![decide_msg(a)] },
            KeyResult::Stay(m) => {
                let rest = prompt_spec(input.drop_first());
                PromptSpec { action: rest.action, used: rest.used + 1, msgs: seq![m] + rest.msgs }
            },
        }
    }
}

/// The prompt loop reads between one byte (or none, on an empty
/// script) and the whole script.
pub proof fn lemma_prompt_used_bounds(input: Seq<u8>)
    ensures
        0 <= prompt_spec(input).used <= input.len(),
        input.len() > 0 ==> 1 <= prompt_spec(input).used,
    decreases input.len(),
{
    if input.len() > 0 {
        match dispatch_spec(input[0]) {
            KeyResult::Decided(a) => {},
            KeyResult::Stay(m) => {
                lemma_prompt_used_bounds(input.drop_first());
            },
        }
    }
}

/// Everything one whole session does on an input script: the action
/// decided for each visited branch in order, the messages printed,
/// the handles whose deletion was asked for in order, and how many
/// input bytes were read.
#[verifier::ext_equal]
pub ghost struct TranscriptView {
    pub decided: Seq<Action>,
    pub msgs: Seq<Msg>,
    pub deletions: Seq<usize>,
    pub used: int,
}

/// The empty transcript: nothing visited, nothing printed, nothing
/// deleted, nothing read.
pub open spec fn empty_transcript() -> TranscriptView {
    TranscriptView { decided: seq![], msgs: seq![], deletions: seq![], used: 0 }
}

/// The session from branch `i` on: each branch in turn runs its
/// prompt loop on what is left of the script; `Keep` moves on,
/// `Delete` records the branch's handle and moves on, `Quit` ends the
/// session with the branches after `i` untouched.
pub open spec fn repl_from(b: Seq<BranchView>, input: Seq<u8>, i: int) -> TranscriptView
    decreases b.len() - i,
{
    if i < 0 || i >= b.len() {
        empty_transcript()
    } else {
        let p = prompt_spec(input);
        if p.action is Quit {
            TranscriptView {
                decided: seq![Action::Quit],
                msgs: p.msgs,
                deletions: seq![],
                used: p.used,
            }
        } else {
            let rest = repl_from(b, input.skip(p.used), i + 1);
            TranscriptView {
                decided: seq![p.action] + rest.decided,
                msgs: p.msgs + rest.msgs,
                deletions: if p.action is Delete {
                    seq![b[i].handle] + rest.deletions
                } else {
                    rest.deletions
                },
                used: p.used + rest.used,
            }
        }
    }
}

/// The whole session: an empty review list only prints the notice;
/// otherwise the branches are reviewed from the first on.
pub open spec fn repl_spec(b: Seq<BranchView>, input: Seq<u8>) -> TranscriptView {
    if b.len() == 0 {
        TranscriptView { decided: seq![], msgs: seq![Msg::Notice], deletions: seq![], used: 0 }
    } else {
        repl_from(b, input, 0)
    }
}

/// Unfolds one `Stay` keystroke out of the session: with the first
/// byte mapped to `Stay(m)`, the session prints `m`, reads that byte,
/// and goes on unchanged on the rest of the script.
pub proof fn lemma_repl_from_stay(b: Seq<BranchView>, input: Seq<u8>, i: int, m: Msg)
    requires
        0 <= i < b.len(),
        input.len() > 0,
        dispatch_spec(input[0]) == KeyResult::Stay(m),
    ensures
        ({
            let t = repl_from(b, input.drop_first(), i);
            repl_from(b, input, i) == TranscriptView {
                decided: t.decided,
                msgs: seq![m] + t.msgs,
                deletions: t.deletions,
                used: t.used + 1,
            }
        }),
{
    let p = prompt_spec(input);
    let q = prompt_spec(input.drop_first());
    lemma_prompt_used_bounds(input.drop_first());
    if p.action is Quit {
        assert(repl_from(b, input, i) =~= TranscriptView {
            decided: seq![Action::Quit],
            msgs: seq![m] + q.msgs,
            deletions: seq![],
            used: q.used + 1,
        });
    } else {
        assert(input.skip(p.used) =~= input.drop_first().skip(q.used));
        let rest = repl_from(b, input.skip(p.used), i + 1);
        assert(p.msgs + rest.msgs =~= seq![m] + (q.msgs + rest.msgs));
    }
}

/// Unfolds one deciding keystroke out of the session: the byte's
/// confirmation is printed, the byte is read, and what follows is the
/// session over the remaining branches — nothing for `Quit`, the rest
/// of the list for `Keep` and `Delete`, with `Delete` first recording
/// the current branch's handle.
pub proof fn lemma_repl_from_decided(b: Seq<BranchView>, input: Seq<u8>, i: int, a: Action)
    requires
        0 <= i < b.len(),
        input.len() > 0,
        dispatch_spec(input[0]) == KeyResult::Decided(a),
    ensures
        ({
            let t = repl_from(b, input.drop_first(), i + 1);
            repl_from(b, input, i) == (match a {
                Action::Quit => TranscriptView {
                    decided: seq![Action::Quit],
                    msgs: seq![Msg::Quitting],
                    deletions: seq![],
                    used: 1,
                },
                Action::Keep => TranscriptView {
                    decided: seq![Action::Keep] + t.decided,
                    msgs: seq![Msg::Keeping] + t.msgs,
                    deletions: t.deletions,
                    used: t.used + 1,
                },
                Action::Delete => TranscriptView {
                    decided: seq![Action::Delete] + t.decided,
                    msgs: seq![Msg::Deleting] + t.msgs,
                    deletions: seq![b[i].handle] + t.deletions,
                    used: t.used + 1,
                },
            })
        }),
{
    let p = prompt_spec(input);
    assert(p.used == 1 && p.action == a && p.msgs =~= seq![decide_msg(a)]);
    if !(a is Quit) {
        assert(input.skip(1) =~= input.drop_first());
    }
}

/// An exhausted script quits the session at the branch it stands on.
pub proof fn lemma_repl_from_end(b: Seq<BranchView>, input: Seq<u8>, i: int)
    requires
        0 <= i < b.len(),
        input.len() == 0,
    ensures
        repl_from(b, input, i) == (TranscriptView {
            decided: seq![Action::Quit],
            msgs: seq![Msg::Quitting],
            deletions: seq![],
            used: 0,
        }),
{
    assert(repl_from(b, input, i) =~= TranscriptView {
        decided: seq![Action::Quit],
        msgs: seq![Msg::Quitting],
        deletions: seq![],
        used: 0,
    });
}

/// Whether the session wants another keystroke or is over.
#[derive(Clone, Copy, PartialEq, Eq, Structural, Debug)]
pub enum Next {
    AwaitKey,
    Done,
}

/// What the surroundings must do after one step: print the messages
/// in order, ask the repository to delete the handle if one is named,
/// and then either prompt the current branch for a keystroke or stop.
pub struct Reply {
    pub msgs: Vec<Msg>,
    pub decided: Option<Action>,
    pub delete: Option<usize>,
    pub next: Next,
}

/// Mathematical image of a `Reply`.
#[verifier::ext_equal]
pub ghost struct ReplyView {
    pub msgs: Seq<Msg>,
    pub decided: Option<Action>,
    pub delete: Option<usize>,
    pub next: Next,
}

impl View for Reply {
    type V = ReplyView;

    open spec fn view(&self) -> ReplyView {
        ReplyView { msgs: self.msgs@, decided: self.decided, delete: self.delete, next: self.next }
    }
}

/// Mathematical image of a `Session`: the review list, the branch
/// the prompt stands on, and whether the session is over.
#[verifier::ext_equal]
pub ghost struct SessionView {
    pub branches: Seq<BranchView>,
    pub cursor: int,
    pub done: bool,
}

/// The review session, stepped one event at a time: `start` opens it,
/// `on_key` feeds it one raw input byte, `end_of_input` tells it the
/// input stream is closed (which quits). Branches are visited
/// strictly in list order; the session never goes back.
pub struct Session {
    branches: Vec<Branch>,
    cursor: usize,
    done: bool,
}

impl View for Session {
    type V = SessionView;

    closed spec fn view(&self) -> SessionView {
        SessionView { branches: self.branches@.map_values(|x: Branch| x@), cursor: self.cursor as int, done: self.done }
    }
}

impl Session {
    /// The cursor never passes the end of the list, and stands on a
    /// branch while the session is open.
    pub open spec fn wf(self) -> bool {
        &&& self@.cursor <= self@.branches.len()
        &&& !self@.done ==> self@.cursor < self@.branches.len() || self@.branches.len() == 0
    }

    /// Opens a session over the given review list, standing before
    /// its first branch.
    pub fn new(branches: Vec<Branch>) -> (s: Session)
        ensures
            s@.branches == branches@.map_values(|x: Branch| x@),
            s@.cursor == 0,
            !s@.done,
            s.wf(),
    {
        Session { branches, cursor: 0, done: false }
    }

    /// How many branches the session reviews in all.
    pub fn branch_count(&self) -> (n: usize)
        ensures
            n == self@.branches.len(),
    {
        self.branches.len()
    }

    /// The branch the prompt stands on.
    pub fn current(&self) -> (b: &Branch)
        requires
            !self@.done,
            self@.cursor < self@.branches.len(),
        ensures
            b@ == self@.branches[self@.cursor],
    {
        &self.branches[self.cursor]
    }

    /// Whether the session is over.
    pub fn is_done(&self) -> (d: bool)
        ensures
            d == self@.done,
    {
        self.done
    }

    /// First step: an empty review list prints the notice and ends
    /// the session at once; otherwise the first branch is prompted.
    pub fn start(&mut self) -> (r: Reply)
        requires
            old(self)@.cursor == 0,
            !old(self)@.done,
        ensures
            final(self)@.branches == old(self)@.branches,
            final(self)@.cursor == 0,
            final(self).wf(),
            r@.decided is None,
            r@.delete is None,
            old(self)@.branches.len() == 0 ==> (r@.msgs == seq![Msg::Notice] && r@.next == Next::Done && final(self)@.done),
            old(self)@.branches.len() > 0 ==> (r@.msgs == Seq::<Msg>::empty() && r@.next == Next::AwaitKey && !final(self)@.done),
    {
        if self.branches.len() == 0 {
            self.done = true;
            Reply { msgs: vec![Msg::Notice], decided: None, delete: None, next: Next::Done }
        } else {
            Reply { msgs: Vec::new(), decided: None, delete: None, next: Next::AwaitKey }
        }
    }

    /// Feeds the prompt one raw input byte. The reply follows the
    /// dispatch table: a `Stay` outcome prints its message and
    /// prompts the same branch again; `Keep` and `Delete` settle the
    /// current branch and move on, `Delete` also naming the branch's
    /// handle for deletion; `Quit` ends the session where it stands.
    pub fn on_key(&mut self, key: u8) -> (r: Reply)
        requires
            !old(self)@.done,
            old(self)@.cursor < old(self)@.branches.len(),
        ensures
            final(self)@.branches == old(self)@.branches,
            final(self).wf(),
            r@.next == Next::AwaitKey <==> !final(self)@.done,
            dispatch_spec(key) matches KeyResult::Stay(m) ==> (final(self)@ == old(self)@ && r@
                == ReplyView {
                msgs: seq![m],
                decided: None,
                delete: None,
                next: Next::AwaitKey,
            }),
            dispatch_spec(key) == KeyResult::Decided(Action::Keep) ==> (final(self)@.cursor == old(
                self,
            )@.cursor + 1 && (final(self)@.done <==> final(self)@.cursor == final(self)@.branches.len()) && r@
                == ReplyView {
                msgs: seq![Msg::Keeping],
                decided: Some(Action::Keep),
                delete: None,
                next: if final(self)@.done {
                    Next::Done
                } else {
                    Next::AwaitKey
                },
            }),
            dispatch_spec(key) == KeyResult::Decided(Action::Delete) ==> (final(self)@.cursor == old(
                self,
            )@.cursor + 1 && (final(self)@.done <==> final(self)@.cursor == final(self)@.branches.len()) && r@
                == ReplyView {
                msgs: seq![Msg::Deleting],
                decided: Some(Action::Delete),
                delete: Some(old(self)@.branches[old(self)@.cursor].handle),
                next: if final(self)@.done {
                    Next::Done
                } else {
                    Next::AwaitKey
                },
            }),
            dispatch_spec(key) == KeyResult::Decided(Action::Quit) ==> (final(self)@.cursor == old(
                self,
            )@.cursor && final(self)@.done && r@ == ReplyView {
                msgs: seq![Msg::Quitting],
                decided: Some(Action::Quit),
                delete: None,
                next: Next::Done,
            }),
    {
        match dispatch_key(key) {
            KeyResult::Stay(m) => Reply {
                msgs: vec![m],
                decided: None,
                delete: None,
                next: Next::AwaitKey,
            },
            KeyResult::Decided(a) => match a {
                Action::Keep => {
                    let n = self.branches.len();
                    assert(self.cursor < n);
                    self.cursor = self.cursor + 1;
                    if self.cursor == n {
                        self.done = true;
                    }
                    Reply {
                        msgs: vec![Msg::Keeping],
                        decided: Some(Action::Keep),
                        delete: None,
                        next: if self.done {
                            Next::Done
                        } else {
                            Next::AwaitKey
                        },
                    }
                },
                Action::Delete => {
                    let n = self.branches.len();
                    assert(self.cursor < n);
                    let handle = self.branches[self.cursor].handle;
                    self.cursor = self.cursor + 1;
                    if self.cursor == n {
                        self.done = true;
                    }
                    Reply {
                        msgs: vec![Msg::Deleting],
                        decided: Some(Action::Delete),
                        delete: Some(handle),
                        next: if self.done {
                            Next::Done
                        } else {
                            Next::AwaitKey
                        },
                    }
                },
                Action::Quit => {
                    self.done = true;
                    Reply {
                        msgs: vec![Msg::Quitting],
                        decided: Some(Action::Quit),
                        delete: None,
                        next: Next::Done,
                    }
                },
            },
        }
    }

    /// Tells the session the input stream is closed: the session
    /// quits where it stands, as if `q` had been pressed.
    pub fn end_of_input(&mut self) -> (r: Reply)
        requires
            !old(self)@.done,
            old(self)@.cursor < old(self)@.branches.len(),
        ensures
            final(self)@.branches == old(self)@.branches,
            final(self)@.cursor == old(self)@.cursor,
            final(self)@.done,
            final(self).wf(),
            r@ == (ReplyView {
                msgs: seq![Msg::Quitting],
                decided: Some(Action::Quit),
                delete: None,
                next: Next::Done,
            }),
    {
        self.done = true;
        Reply {
            msgs: vec![Msg::Quitting],
            decided: Some(Action::Quit),
            delete: None,
            next: Next::Done,
        }
    }
}

/// The record of one whole session: the action decided for each
/// visited branch in order, every message printed, the handles whose
/// deletion was asked for in the order asked, and the number of
/// input bytes read.
pub struct Transcript {
    pub decided: Vec<Action>,
    pub msgs: Vec<Msg>,
    pub deletions: Vec<usize>,
    pub used: usize,
}

impl View for Transcript {
    type V = TranscriptView;

    open spec fn view(&self) -> TranscriptView {
        TranscriptView {
            decided: self.decided@,
            msgs: self.msgs@,
            deletions: self.deletions@,
            used: self.used as int,
        }
    }
}

/// Replays a whole review session over a fixed input script by
/// stepping a `Session`, and returns its transcript: exactly what
/// `repl_spec` says the session does on that list and that script.
pub fn repl(branches: Vec<Branch>, input: &Vec<u8>) -> (t: Transcript)
    ensures
        t@ == repl_spec(branches@.map_values(|x: Branch| x@), input@),
{
    let ghost b = branches@.map_values(|x: Branch| x@);
    let mut s = Session::new(branches);
    let mut t = Transcript { decided: Vec::new(), msgs: Vec::new(), deletions: Vec::new(), used: 0 };
    let mut r = s.start();
    t.msgs.append(&mut r.msgs);
    if r.next == Next::Done {
        proof {
            assert(t@.msgs =~= seq![Msg::Notice]);
            assert(t@ =~= repl_spec(b, input@));
        }
        return t;
    }
    let mut pos: usize = 0;
    proof {
        assert(input@.skip(0) =~= input@);
        let rf = repl_from(b, input@, 0);
        assert(t@.decided + rf.decided =~= rf.decided);
        assert(t@.msgs + rf.msgs =~= rf.msgs);
        assert(t@.deletions + rf.deletions =~= rf.deletions);
        assert(repl_spec(b, input@) =~= (TranscriptView {
            decided: t@.decided + rf.decided,
            msgs: t@.msgs + rf.msgs,
            deletions: t@.deletions + rf.deletions,
            used: 0 + rf.used,
        }));
    }
    loop
        invariant_except_break
            !s@.done,
            0 <= s@.cursor < b.len(),
            ({
                let rf = repl_from(b, input@.skip(pos as int), s@.cursor);
                repl_spec(b, input@) == (TranscriptView {
                    decided: t@.decided + rf.decided,
                    msgs: t@.msgs + rf.msgs,
                    deletions: t@.deletions + rf.deletions,
                    used: pos + rf.used,
                })
            }),
        invariant
            s@.branches == b,
            b.len() > 0,
            s.wf(),
            pos <= input@.len(),
        ensures
            repl_spec(b, input@) == (TranscriptView {
                decided: t@.decided,
                msgs: t@.msgs,
                deletions: t@.deletions,
                used: pos as int,
            }),
        decreases input@.len() - pos,
    {
        let ghost tail = input@.skip(pos as int);
        let ghost cursor0 = s@.cursor;
        let mut r = if pos < input.len() {
            let key = input[pos];
            proof {
                assert(tail.len() > 0 && tail[0] == key);
            }
            pos = pos + 1;
            let reply = s.on_key(key);
            proof {
                match dispatch_spec(key) {
                    KeyResult::Stay(m) => {
                        lemma_repl_from_stay(b, tail, cursor0, m);
                    },
                    KeyResult::Decided(a) => {
                        lemma_repl_from_decided(b, tail, cursor0, a);
                    },
                }
                assert(tail.drop_first() =~= input@.skip(pos as int));
            }
            reply
        } else {
            proof {
                assert(tail =~= Seq::<u8>::empty());
                lemma_repl_from_end(b, tail, cursor0);
            }
            s.end_of_input()
        };
        let ghost t0 = t@;
        let ghost r0 = r@;
        t.msgs.append(&mut r.msgs);
        match r.decided {
            Some(a) => t.decided.push(a),
            None => {},
        }
        match r.delete {
            Some(h) => t.deletions.push(h),
            None => {},
        }
        proof {
            assert(t@.msgs =~= t0.msgs + r0.msgs);
            let full = repl_spec(b, input@);
            if s@.done {
                assert(full.decided =~= t@.decided);
                assert(full.msgs =~= t@.msgs);
                assert(full.deletions =~= t@.deletions);
                assert(full.used == pos);
            } else {
                let rf = repl_from(b, input@.skip(pos as int), s@.cursor);
                assert(full.decided =~= t@.decided + rf.decided);
                assert(full.msgs =~= t@.msgs + rf.msgs);
                assert(full.deletions =~= t@.deletions + rf.deletions);
                assert(full.used == pos + rf.used);
            }
        }
        if r.next == Next::Done {
            break;
        }
    }
    t.used = pos;
    assert(t@ =~= repl_spec(b, input@));
    t
}

/// Runs one branch's prompt loop over the input script, starting at
/// byte `from`: reads bytes until one decides, and returns the
/// decided action, the position after the last byte read, and the
/// messages printed on the way — exactly what `prompt_spec` says of
/// the script's tail. An exhausted script decides `Quit`.
pub fn get_action(input: &Vec<u8>, from: usize) -> (r: (Action, usize, Vec<Msg>))
    requires
        from <= input@.len(),
    ensures
        ({
            let p = prompt_spec(input@.skip(from as int));
            &&& r.0 == p.action
            &&& r.1 == from + p.used
            &&& from <= r.1 <= input@.len()
            &&& r.2@ == p.msgs
        }),
{
    let mut pos: usize = from;
    let mut msgs: Vec<Msg> = Vec::new();
    let mut decided_action: Option<Action> = None;
    loop
        invariant_except_break
            from <= pos <= input@.len(),
            ({
                let whole = prompt_spec(input@.skip(from as int));
                let left = prompt_spec(input@.skip(pos as int));
                &&& whole.action == left.action
                &&& whole.used == (pos - from) + left.used
                &&& whole.msgs == msgs@ + left.msgs
            }),
        ensures
            ({
                let whole = prompt_spec(input@.skip(from as int));
                &&& decided_action == Some(whole.action)
                &&& from <= pos <= input@.len()
                &&& pos == from + whole.used
                &&& msgs@ == whole.msgs
            }),
        decreases input@.len() - pos,
    {
        let ghost tail = input@.skip(pos as int);
        proof {
            lemma_prompt_used_bounds(input@.skip(from as int));
            if pos == input@.len() {
                assert(tail =~= Seq::<u8>::empty());
            }
        }
        if pos == input.len() {
            msgs.push(Msg::Quitting);
            proof {
                let whole = prompt_spec(input@.skip(from as int));
                assert(msgs@ =~= whole.msgs);
            }
            decided_action = Some(Action::Quit);
            break;
        }
        let key = input[pos];
        proof {
            assert(tail.len() > 0 && tail[0] == key);
            assert(tail.drop_first() =~= input@.skip(pos as int + 1));
        }
        pos = pos + 1;
        match dispatch_key(key) {
            KeyResult::Decided(a) => {
                let m = match a {
                    Action::Keep => Msg::Keeping,
                    Action::Delete => Msg::Deleting,
                    Action::Quit => Msg::Quitting,
                };
                msgs.push(m);
                proof {
                    let whole = prompt_spec(input@.skip(from as int));
                    assert(prompt_spec(tail).used == 1 && prompt_spec(tail).action == a);
                    assert(prompt_spec(tail).msgs =~= seq![decide_msg(a)]);
                    assert(msgs@ =~= whole.msgs);
                }
                decided_action = Some(a);
                break;
            },
            KeyResult::Stay(m) => {
                msgs.push(m);
                proof {
                    let whole = prompt_spec(input@.skip(from as int));
                    let left = prompt_spec(input@.skip(pos as int));
                    assert(prompt_spec(tail).msgs =~= seq![m] + left.msgs);
                    assert(msgs@ + left.msgs =~= whole.msgs);
                }
            },
        }
    }
    (decided_action.unwrap(), pos, msgs)
}

/// The review list hands out each handle at most once.
pub open spec fn distinct_handles(b: Seq<BranchView>) -> bool {
    forall|i: int, j: int| 0 <= i < j < b.len() ==> b[i].handle != b[j].handle
}

/// The handles that fall when the branches from `i` on receive the
/// decisions of `decided` in order: one entry per `Delete`, in
/// branch order.
pub open spec fn deleted_by(b: Seq<BranchView>, decided: Seq<Action>, i: int) -> Seq<usize>
    decreases decided.len(),
{
    if decided.len() == 0 {
        seq![]
    } else if decided[0] is Delete {
        seq![b[i].handle] + deleted_by(b, decided.drop_first(), i + 1)
    } else {
        deleted_by(b, decided.drop_first(), i + 1)
    }
}

/// How many times the handle `h` appears in the deletion record `s`:
/// how often its branch's deletion was asked for.
pub open spec fn times_deleted(s: Seq<usize>, h: usize) -> int
    decreases s.len(),
{
    if s.len() == 0 {
        0
    } else {
        (if s[0] == h {
            1int
        } else {
            0int
        }) + times_deleted(s.drop_first(), h)
    }
}

/// The shape of every session tail: it decides no more branches than
/// are left, a `Quit` decision can only come last, the session runs
/// to the end of the list unless it quits, and the deletion record
/// is exactly one entry per branch decided `Delete`, in order.
pub proof fn lemma_repl_from_shape(b: Seq<BranchView>, input: Seq<u8>, i: int)
    requires
        0 <= i <= b.len(),
    ensures
        ({
            let t = repl_from(b, input, i);
            &&& t.decided.len() <= b.len() - i
            &&& (forall|k: int| 0 <= k < t.decided.len() - 1 ==> !(t.decided[k] is Quit))
            &&& (t.decided.len() < b.len() - i ==> t.decided.len() > 0 && t.decided[
                t.decided.len() - 1
            ] is Quit)
            &&& i < b.len() ==> t.decided.len() >= 1
            &&& t.deletions =~= deleted_by(b, t.decided, i)
        }),
    decreases b.len() - i,
{
    let t = repl_from(b, input, i);
    if i < b.len() {
        let p = prompt_spec(input);
        if p.action is Quit {
            assert(t.decided =~= seq![Action::Quit]);
            assert(t.decided.drop_first() =~= Seq::<Action>::empty());
            assert(deleted_by(b, t.decided.drop_first(), i + 1) =~= Seq::<usize>::empty());
            assert(!(t.decided[0] is Delete));
            assert(t.deletions =~= deleted_by(b, t.decided, i));
        } else {
            let rest = repl_from(b, input.skip(p.used), i + 1);
            lemma_repl_from_shape(b, input.skip(p.used), i + 1);
            assert(t.decided.len() == 1 + rest.decided.len());
            assert(t.decided[0] == p.action);
            assert(t.decided.drop_first() =~= rest.decided);
            assert(rest.deletions == deleted_by(b, rest.decided, i + 1));
            assert(deleted_by(b, t.decided.drop_first(), i + 1) == deleted_by(b, rest.decided, i + 1));
            if p.action is Delete {
                assert(t.deletions =~= seq![b[i].handle] + rest.deletions);
                assert(deleted_by(b, t.decided, i) == seq![b[i].handle] + deleted_by(
                    b,
                    t.decided.drop_first(),
                    i + 1,
                ));
            } else {
                assert(t.deletions == rest.deletions);
                assert(deleted_by(b, t.decided, i) == deleted_by(b, t.decided.drop_first(), i + 1));
            }
            assert(t.deletions =~= deleted_by(b, t.decided, i));
        }
    }
}

/// Counts deletions per branch: with distinct handles, the record
/// `deleted_by(b, decided, i)` names `b[j]`'s handle once when its
/// decision is `Delete` and never otherwise.
pub proof fn lemma_times_deleted_by(b: Seq<BranchView>, decided: Seq<Action>, i: int, j: int)
    requires
        0 <= i,
        i + decided.len() <= b.len(),
        0 <= j < b.len(),
        distinct_handles(b),
    ensures
        times_deleted(deleted_by(b, decided, i), b[j].handle) == (if i <= j < i + decided.len()
            && decided[j - i] is Delete {
            1int
        } else {
            0int
        }),
    decreases decided.len(),
{
    if decided.len() > 0 {
        let rest = deleted_by(b, decided.drop_first(), i + 1);
        lemma_times_deleted_by(b, decided.drop_first(), i + 1, j);
        if decided[0] is Delete {
            let whole = seq![b[i].handle] + rest;
            assert(whole.drop_first() =~= rest);
            assert(whole[0] == b[i].handle);
        }
    }
}

/// Quitting at a branch leaves every later branch unvisited and
/// unmodified: decisions cover a prefix of the list, a `Quit` ends
/// the session on the spot, and no branch past the last visited one
/// has its deletion asked for even once.
pub proof fn lemma_quit_leaves_rest_untouched(b: Seq<BranchView>, input: Seq<u8>)
    requires
        distinct_handles(b),
    ensures
        ({
            let t = repl_spec(b, input);
            &&& t.decided.len() <= b.len()
            &&& (forall|k: int|
                0 <= k < t.decided.len() && t.decided[k] is Quit ==> t.decided.len() == k + 1)
            &&& (forall|j: int|
                t.decided.len() <= j < b.len() ==> times_deleted(t.deletions, b[j].handle) == 0)
        }),
{
    let t = repl_spec(b, input);
    if b.len() > 0 {
        lemma_repl_from_shape(b, input, 0);
        assert forall|j: int|
            t.decided.len() <= j < b.len() implies times_deleted(t.deletions, b[j].handle)
            == 0 by {
            lemma_times_deleted_by(b, t.decided, 0, j);
        }
    } else {
        assert forall|j: int|
            t.decided.len() <= j < b.len() implies times_deleted(t.deletions, b[j].handle)
            == 0 by {
        }
    }
}

/// The deletion capability is used exactly once for a branch decided
/// `Delete` and never for any other branch of the same session.
pub proof fn lemma_delete_exactly_once(b: Seq<BranchView>, input: Seq<u8>, j: int)
    requires
        distinct_handles(b),
        0 <= j < b.len(),
    ensures
        ({
            let t = repl_spec(b, input);
            times_deleted(t.deletions, b[j].handle) == (if j < t.decided.len() && t.decided[
                j
            ] is Delete {
                1int
            } else {
                0int
            })
        }),
{
    if b.len() > 0 {
        lemma_repl_from_shape(b, input, 0);
        let t = repl_spec(b, input);
        lemma_times_deleted_by(b, t.decided, 0, j);
    }
}

} // verus!

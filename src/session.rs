//! The order of turns in one session, and the prompts it sends.
use vstd::prelude::*;
use vstd::string::StringExecFns;
use crate::turn::TurnResult;

verus! {

/// The first prompt of a session: announces the files that follow.
pub const INTRODUCTION_PROMPT: &'static str =
    "Es folgen einige Quellcode-Dateien. Bitte keine Antwort, bis eine Anweisung gegeben wurde.";

/// The last prompt of a session: asks for the review.
pub const REVIEW_PROMPT: &'static str =
    "Bitte führe einen Code-Review für die zuvor übergebenen Quellcode-Dateien durch. Wenn Du einen Vorschlag für Code-Änderungen machst, markiere die geänderten oder ergänzten Stellen. Bitte für die Ausgabe das Markdown-Format verwenden.";

pub open spec fn file_prompt_of(path: Seq<char>, content: Seq<char>) -> Seq<char> {
    "Hier ist der Inhalt der Datei `"@ + path + "`:\n\n```rust\n"@ + content + "\n```"@
}

/// The prompt that hands the model the content of one source file.
pub fn file_prompt(path: &str, content: &str) -> (r: String)
    ensures
        r@ == file_prompt_of(path@, content@),
{
    let mut p = String::from_str("Hier ist der Inhalt der Datei `");
    p.append(path);
    p.append("`:\n\n```rust\n");
    p.append(content);
    p.append("\n```");
    p
}

/// A session as the contracts see it.
pub struct SessionView {
    pub prompts: Seq<Seq<char>>,
    /// How many turns have been started.
    pub started: nat,
    /// Whether a started turn has not ended yet.
    pub in_turn: bool,
    /// How many ended turns failed.
    pub failures: nat,
}

pub open spec fn session_start(v: SessionView) -> (SessionView, Option<Seq<char>>) {
    if !v.in_turn && v.started < v.prompts.len() {
        (SessionView { started: v.started + 1, in_turn: true, ..v }, Some(v.prompts[v.started as int]))
    } else {
        (v, None)
    }
}

pub open spec fn session_finish(v: SessionView, failed: bool) -> SessionView {
    SessionView { in_turn: false, failures: if failed { v.failures + 1 } else { v.failures }, ..v }
}

/// The prompts sent when the turns end one after another with the given
/// outcomes (`true` for a failed turn), each started only after the last ended.
pub open spec fn prompts_sent(v: SessionView, failed: Seq<bool>) -> Seq<Seq<char>>
    decreases failed.len(),
{
    if failed.len() == 0 {
        seq![]
    } else {
        match session_start(v).1 {
            None => seq![],
            Some(p) => seq![p] + prompts_sent(
                session_finish(session_start(v).0, failed[0]),
                failed.drop_first(),
            ),
        }
    }
}

proof fn lemma_prompts_sent_from(v: SessionView, failed: Seq<bool>)
    requires
        !v.in_turn,
        v.started <= v.prompts.len(),
    ensures
        prompts_sent(v, failed) == v.prompts.subrange(
            v.started as int,
            if v.started + failed.len() <= v.prompts.len() {
                (v.started + failed.len()) as int
            } else {
                v.prompts.len() as int
            },
        ),
    decreases failed.len(),
{
    if failed.len() > 0 && v.started < v.prompts.len() {
        let next = session_finish(session_start(v).0, failed[0]);
        lemma_prompts_sent_from(next, failed.drop_first());
        let end = if v.started + failed.len() <= v.prompts.len() {
            (v.started + failed.len()) as int
        } else {
            v.prompts.len() as int
        };
        assert(seq![v.prompts[v.started as int]] + v.prompts.subrange(v.started + 1int, end)
            =~= v.prompts.subrange(v.started as int, end));
    } else {
        assert(v.prompts.subrange(v.started as int, v.started as int) =~= Seq::<Seq<char>>::empty());
    }
}

/// A failed turn never stops the session: whichever turns fail, the prompts are
/// sent strictly in their given order, one turn at a time, and once as many
/// turns as prompts have ended, every prompt has been sent.
pub proof fn lemma_every_prompt_is_attempted(prompts: Seq<Seq<char>>, failed: Seq<bool>)
    ensures
        failed.len() <= prompts.len() ==> prompts_sent(
            SessionView { prompts, started: 0, in_turn: false, failures: 0 },
            failed,
        ) == prompts.take(failed.len() as int),
        failed.len() >= prompts.len() ==> prompts_sent(
            SessionView { prompts, started: 0, in_turn: false, failures: 0 },
            failed,
        ) == prompts,
{
    let v = SessionView { prompts, started: 0, in_turn: false, failures: 0 };
    lemma_prompts_sent_from(v, failed);
    assert(prompts.subrange(0, prompts.len() as int) =~= prompts);
}

pub open spec fn strings_view(s: Seq<String>) -> Seq<Seq<char>> {
    s.map_values(|p: String| p@)
}

/// Runs the prompts of a session one turn at a time, in order.
pub struct Session {
    prompts: Vec<String>,
    started: usize,
    in_turn: bool,
    failures: usize,
}

impl View for Session {
    type V = SessionView;

    closed spec fn view(&self) -> SessionView {
        SessionView {
            prompts: strings_view(self.prompts@),
            started: self.started as nat,
            in_turn: self.in_turn,
            failures: self.failures as nat,
        }
    }
}

impl Session {
    pub closed spec fn wf(&self) -> bool {
        &&& self.started <= self.prompts.len()
        &&& self.failures + (if self.in_turn { 1nat } else { 0nat }) <= self.started
    }

    pub fn new(prompts: Vec<String>) -> (r: Session)
        ensures
            r.wf(),
            r@ == (SessionView { prompts: strings_view(prompts@), started: 0, in_turn: false, failures: 0 }),
    {
        Session { prompts, started: 0, in_turn: false, failures: 0 }
    }

    /// The prompt of the next turn, or `None` when all have been sent. A turn
    /// is started only once the one before it has ended.
    pub fn start_next(&mut self) -> (r: Option<String>)
        requires
            old(self).wf(),
            !old(self)@.in_turn,
        ensures
            final(self).wf(),
            final(self)@ == session_start(old(self)@).0,
            match r {
                Some(p) => session_start(old(self)@).1 == Some(p@),
                None => session_start(old(self)@).1 is None,
            },
    {
        if self.started < self.prompts.len() {
            let p = self.prompts[self.started].clone();
            self.started = self.started + 1;
            self.in_turn = true;
            Some(p)
        } else {
            None
        }
    }

    /// Records how the running turn ended. A failure is counted and the
    /// session goes on.
    pub fn finish_turn(&mut self, result: &TurnResult)
        requires
            old(self).wf(),
            old(self)@.in_turn,
        ensures
            final(self).wf(),
            final(self)@ == session_finish(old(self)@, !(result is Rendered)),
    {
        self.in_turn = false;
        if result.is_failure() {
            self.failures = self.failures + 1;
        }
    }

    /// How many ended turns failed.
    pub fn failures(&self) -> (r: usize)
        ensures
            r == self@.failures,
    {
        self.failures
    }

    /// Whether every prompt has been sent and its turn has ended.
    pub fn is_done(&self) -> (r: bool)
        ensures
            r == (!self@.in_turn && self@.started == self@.prompts.len()),
    {
        !self.in_turn && self.started == self.prompts.len()
    }
}

} // verus!

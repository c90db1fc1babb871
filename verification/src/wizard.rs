//! First-run setup: ask for an integration token until one is accepted.
use vstd::prelude::*;
use crate::markdown::parse::opt_view;
use crate::text::{chars_of, lemma_trim_idempotent, push_str, string_of, trim, trim_chars};

verus! {

broadcast use vstd::string::group_string_axioms;

/// Why a pasted token was not accepted. The wizard must not tell a user
/// with a broken network that their token is wrong.
#[derive(Debug)]
pub enum TokenError {
    /// Notion answered and rejected the token (401/403) or returned no identity.
    Invalid,
    /// Notion could not be reached at all (connect/timeout/DNS or retries exhausted).
    Network(String),
}

/// Why the wizard stopped without a token.
#[derive(Debug)]
pub enum WizardError {
    /// Reading the input or writing the prompt failed.
    Io(std::io::Error),
    /// The input ended before a valid token was provided.
    InputClosed,
}

#[verifier::external_type_specification]
#[verifier::external_body]
pub struct ExIoError(std::io::Error);

/// A validator's answer as plain values: the integration name, or why the
/// token was refused (`None` for an invalid token, `Some(detail)` for a
/// network failure).
pub open spec fn verdict_view(v: Result<String, TokenError>) -> Result<Seq<char>, Option<Seq<char>>> {
    match v {
        Ok(name) => Ok(name@),
        Err(TokenError::Invalid) => Err(None),
        Err(TokenError::Network(d)) => Err(Some(d@)),
    }
}

/// What the wizard prints after validating a token.
pub open spec fn verdict_text(v: Result<Seq<char>, Option<Seq<char>>>) -> Seq<char> {
    match v {
        Ok(name) => "ok — connected as \""@ + name + "\"\n"@ + "starting first sync now — large workspaces show progress in the status bar and can take a few minutes.\n"@,
        Err(None) => "invalid token, try again:\n"@,
        Err(Some(d)) => "can't reach Notion — check your connection ("@ + d + "); try again:\n"@,
    }
}

/// The line printed after a validation: success names the integration and
/// announces the first sync; an invalid token and an unreachable Notion get
/// different messages.
pub fn verdict_message(v: &Result<String, TokenError>) -> (r: String)
    ensures
        r@ == verdict_text(verdict_view(*v)),
{
    let mut s = String::new();
    match v {
        Ok(name) => {
            push_str(&mut s, "ok — connected as \"");
            push_str(&mut s, name.as_str());
            push_str(&mut s, "\"\n");
            push_str(
                &mut s,
                "starting first sync now — large workspaces show progress in the status bar and can take a few minutes.\n",
            );
        },
        Err(TokenError::Invalid) => {
            push_str(&mut s, "invalid token, try again:\n");
        },
        Err(TokenError::Network(detail)) => {
            push_str(&mut s, "can't reach Notion — check your connection (");
            push_str(&mut s, detail.as_str());
            push_str(&mut s, "); try again:\n");
        },
    }
    proof {
        assert(s@ =~= verdict_text(verdict_view(*v)));
    }
    s
}

/// Asks the caller's reader for the next input line (`None` at the end of
/// the input).
#[verifier::external_body]
fn next_line<R: FnMut() -> Option<Result<String, std::io::Error>>>(read_line: &mut R) -> (r: Option<
    Result<String, std::io::Error>,
>) {
    read_line()
}

/// Hands `text` to the caller's writer.
#[verifier::external_body]
fn write_text<W: FnMut(&str) -> Result<(), std::io::Error>>(write: &mut W, text: &str) -> (r: Result<
    (),
    std::io::Error,
>) {
    write(text)
}

/// Asks the caller's validator about `token`.
#[verifier::external_body]
fn ask_validator<F: FnMut(&str) -> Result<String, TokenError>>(validate: &mut F, token: &str) -> (r:
    Result<String, TokenError>) {
    validate(token)
}

/// Writes `text`, turning a failure into the wizard's error; whether the
/// write succeeds is up to the writer.
fn say<W: FnMut(&str) -> Result<(), std::io::Error>>(out: &mut W, text: &str) -> (r: Result<(), WizardError>)
    ensures
        r matches Err(e) ==> e is Io,
{
    match write_text(out, text) {
        Ok(()) => Ok(()),
        Err(e) => Err(WizardError::Io(e)),
    }
}

/// The token an input line offers: the line trimmed, or `None` for a blank
/// line (which the wizard skips).
pub fn token_of_line(line: &str) -> (r: Option<String>)
    ensures
        match r {
            Some(t) => trim(line@).len() > 0 && t@ == trim(line@),
            None => trim(line@).len() == 0,
        },
{
    let chars = chars_of(line);
    let token_chars = trim_chars(&chars);
    if token_chars.len() == 0 {
        None
    } else {
        Some(string_of(&token_chars))
    }
}

/// What the wizard does with the validator's answer about `token`: the
/// line it prints, and the token it finishes with when the answer accepts
/// it (`None`: it asks again).
pub fn answer_outcome(token: &str, verdict: &Result<String, TokenError>) -> (r: (String, Option<String>))
    ensures
        r.0@ == verdict_text(verdict_view(*verdict)),
        match r.1 {
            Some(t) => verdict is Ok && t@ == token@,
            None => verdict is Err,
        },
{
    let message = verdict_message(verdict);
    match verdict {
        Ok(_) => (message, Some(token.to_owned())),
        Err(_) => (message, None),
    }
}

/// What the wizard learns next.
pub enum WizardEvent {
    /// The wizard starts.
    Start,
    /// The input gave a line.
    Line(String),
    /// The input ended.
    InputEnded,
    /// The validator answered about the token under validation.
    Answer(Result<String, TokenError>),
}

/// What the wizard needs done next.
#[derive(Debug)]
pub enum WizardAction {
    /// Read the next input line.
    ReadLine,
    /// Ask the validator about this token.
    Validate(String),
    /// Finish with this token.
    Accept(String),
    /// Stop: the input ended without an accepted token.
    GiveUp,
}

pub enum WizardEventView {
    Start,
    Line(Seq<char>),
    InputEnded,
    Answer(Result<Seq<char>, Option<Seq<char>>>),
}

pub enum WizardActionView {
    ReadLine,
    Validate(Seq<char>),
    Accept(Seq<char>),
    GiveUp,
}

pub open spec fn event_view(e: WizardEvent) -> WizardEventView {
    match e {
        WizardEvent::Start => WizardEventView::Start,
        WizardEvent::Line(l) => WizardEventView::Line(l@),
        WizardEvent::InputEnded => WizardEventView::InputEnded,
        WizardEvent::Answer(v) => WizardEventView::Answer(verdict_view(v)),
    }
}

pub open spec fn action_view(a: WizardAction) -> WizardActionView {
    match a {
        WizardAction::ReadLine => WizardActionView::ReadLine,
        WizardAction::Validate(t) => WizardActionView::Validate(t@),
        WizardAction::Accept(t) => WizardActionView::Accept(t@),
        WizardAction::GiveUp => WizardActionView::GiveUp,
    }
}

/// What the wizard prints when it starts.
pub open spec fn intro_text() -> Seq<char> {
    "notion-tui first-run setup\n"@ + "Create an internal integration at https://www.notion.so/profile/integrations\n"@
        + "and share the pages you want with it, then paste the token below.\n"@
}

/// One step of the wizard: from the token under validation (if any) and
/// an event, the token under validation next, the text it prints and what
/// it needs done. It starts by printing its introduction and asking for a
/// line; a blank line is skipped; any other line, trimmed, is validated; an
/// answer is printed and either accepts the token under validation or asks
/// for another line; the end of the input makes it give up.
pub open spec fn wizard_next(pending: Option<Seq<char>>, ev: WizardEventView) -> (
    Option<Seq<char>>,
    Seq<char>,
    WizardActionView,
) {
    match ev {
        WizardEventView::Start => (None, intro_text(), WizardActionView::ReadLine),
        WizardEventView::Line(l) => if trim(l).len() == 0 {
            (None, Seq::empty(), WizardActionView::ReadLine)
        } else {
            (Some(trim(l)), "validating… "@, WizardActionView::Validate(trim(l)))
        },
        WizardEventView::InputEnded => (None, Seq::empty(), WizardActionView::GiveUp),
        WizardEventView::Answer(v) => match pending {
            Some(t) => (None, verdict_text(v), match v {
                Ok(_) => WizardActionView::Accept(t),
                Err(_) => WizardActionView::ReadLine,
            }),
            None => (None, Seq::empty(), WizardActionView::ReadLine),
        },
    }
}

/// The first-run wizard's decisions; it remembers the token it is waiting
/// to hear about.
pub struct Wizard {
    pub pending: Option<String>,
}

impl Wizard {
    pub fn new() -> (r: Wizard)
        ensures
            r.pending is None,
    {
        Wizard { pending: None }
    }

    /// Takes one event; returns the text to print and what to do next, as
    /// `wizard_next` says.
    pub fn step(&mut self, event: WizardEvent) -> (r: (String, WizardAction))
        ensures
            ({
                let n = wizard_next(opt_view(old(self).pending), event_view(event));
                &&& opt_view(final(self).pending) == n.0
                &&& r.0@ == n.1
                &&& action_view(r.1) == n.2
            }),
    {
        match event {
            WizardEvent::Start => {
                self.pending = None;
                let mut s = String::new();
                push_str(&mut s, "notion-tui first-run setup\n");
                push_str(&mut s, "Create an internal integration at https://www.notion.so/profile/integrations\n");
                push_str(&mut s, "and share the pages you want with it, then paste the token below.\n");
                (s, WizardAction::ReadLine)
            },
            WizardEvent::Line(line) => {
                match token_of_line(line.as_str()) {
                    None => {
                        self.pending = None;
                        (String::new(), WizardAction::ReadLine)
                    },
                    Some(t) => {
                        self.pending = Some(t.clone());
                        let mut s = String::new();
                        push_str(&mut s, "validating… ");
                        (s, WizardAction::Validate(t))
                    },
                }
            },
            WizardEvent::InputEnded => {
                self.pending = None;
                (String::new(), WizardAction::GiveUp)
            },
            WizardEvent::Answer(verdict) => {
                let p = self.pending.take();
                match p {
                    Some(t) => {
                        let (message, accepted) = answer_outcome(t.as_str(), &verdict);
                        match accepted {
                            Some(tok) => (message, WizardAction::Accept(tok)),
                            None => (message, WizardAction::ReadLine),
                        }
                    },
                    None => (String::new(), WizardAction::ReadLine),
                }
            },
        }
    }
}

/// The wizard run over input lines `lines[i..]`, the validator giving
/// `answers[j..]` in turn, from where it waits for a line: the tokens it
/// hands to the validator, the text it prints and the token it finishes
/// with (`None`: the input ended first).
pub open spec fn session(
    lines: Seq<Seq<char>>,
    answers: Seq<Result<Seq<char>, Option<Seq<char>>>>,
    i: int,
    j: int,
) -> (Seq<Seq<char>>, Seq<char>, Option<Seq<char>>)
    decreases lines.len() - i,
{
    if i < 0 || i >= lines.len() {
        (Seq::empty(), wizard_next(None, WizardEventView::InputEnded).1, None)
    } else {
        let s = wizard_next(None, WizardEventView::Line(lines[i]));
        match s.2 {
            WizardActionView::Validate(t) => {
                let a = wizard_next(s.0, WizardEventView::Answer(answers[j]));
                match a.2 {
                    WizardActionView::Accept(tok) => (seq![t], s.1 + a.1, Some(tok)),
                    _ => {
                        let rest = session(lines, answers, i + 1, j + 1);
                        (seq![t] + rest.0, s.1 + a.1 + rest.1, rest.2)
                    },
                }
            },
            _ => {
                let rest = session(lines, answers, i + 1, j);
                (rest.0, s.1 + rest.1, rest.2)
            },
        }
    }
}

/// The non-blank lines of `lines[i..]`, trimmed.
pub open spec fn offered_tokens(lines: Seq<Seq<char>>, i: int) -> Seq<Seq<char>>
    decreases lines.len() - i,
{
    if i < 0 || i >= lines.len() {
        Seq::empty()
    } else if trim(lines[i]).len() == 0 {
        offered_tokens(lines, i + 1)
    } else {
        seq![trim(lines[i])] + offered_tokens(lines, i + 1)
    }
}

/// Position, among the `n` answers from `j` on, of the first that accepts.
pub open spec fn first_accepting(answers: Seq<Result<Seq<char>, Option<Seq<char>>>>, j: int, n: int) -> Option<int>
    decreases n,
{
    if n <= 0 {
        None
    } else if answers[j] is Ok {
        Some(0)
    } else {
        match first_accepting(answers, j + 1, n - 1) {
            Some(k) => Some(k + 1),
            None => None,
        }
    }
}

proof fn lemma_session(
    lines: Seq<Seq<char>>,
    answers: Seq<Result<Seq<char>, Option<Seq<char>>>>,
    i: int,
    j: int,
)
    requires
        0 <= i <= lines.len(),
        0 <= j,
    ensures
        ({
            let ts = offered_tokens(lines, i);
            let s = session(lines, answers, i, j);
            match first_accepting(answers, j, ts.len() as int) {
                Some(k) => 0 <= k < ts.len() && s.0 == ts.take(k + 1) && s.2 == Some(ts[k]),
                None => s.0 == ts && s.2 is None,
            }
        }),
    decreases lines.len() - i,
{
    if i < lines.len() {
        let l = lines[i];
        if trim(l).len() == 0 {
            lemma_session(lines, answers, i + 1, j);
        } else {
            lemma_session(lines, answers, i + 1, j + 1);
            let t = trim(l);
            let ts = offered_tokens(lines, i);
            let rest = offered_tokens(lines, i + 1);
            assert(ts == seq![t] + rest);
            if answers[j] is Ok {
                assert(ts.take(1) =~= seq![t]);
            } else {
                match first_accepting(answers, j + 1, rest.len() as int) {
                    Some(k) => {
                        assert(ts.take(k + 2) =~= seq![t] + rest.take(k + 1));
                        assert(ts[k + 1] == rest[k]);
                    },
                    None => {},
                }
            }
        }
    }
}

/// The wizard hands the validator the non-blank input lines, trimmed, in
/// order, and nothing else, until one is accepted; it finishes with the
/// first accepted token, or, when none is, gives up after offering them all.
pub proof fn law_wizard_validates_lines_in_turn(
    lines: Seq<Seq<char>>,
    answers: Seq<Result<Seq<char>, Option<Seq<char>>>>,
)
    ensures
        ({
            let ts = offered_tokens(lines, 0);
            let s = session(lines, answers, 0, 0);
            match first_accepting(answers, 0, ts.len() as int) {
                Some(k) => 0 <= k < ts.len() && s.0 == ts.take(k + 1) && s.2 == Some(ts[k]),
                None => s.0 == ts && s.2 is None,
            }
        }),
{
    lemma_session(lines, answers, 0, 0);
}

/// Prompts for a token until `validate` accepts one (returning the
/// integration name): reads lines with `read_line` (`None` when the input
/// ends), prints with `write`, and does at each turn what `Wizard::step`
/// decides. Whether it succeeds rests on what the input holds and what the
/// validator answers; an accepted token is trimmed and not empty.
pub fn run_with<
    R: FnMut() -> Option<Result<String, std::io::Error>>,
    W: FnMut(&str) -> Result<(), std::io::Error>,
    F: FnMut(&str) -> Result<String, TokenError>,
>(read_line: R, write: W, validate: F) -> (r: Result<String, WizardError>)
    ensures
        r matches Ok(t) ==> t@.len() > 0 && trim(t@) == t@,
{
    let mut input = read_line;
    let mut output = write;
    let mut validate = validate;
    let mut wizard = Wizard::new();
    let (text, first) = wizard.step(WizardEvent::Start);
    say(&mut output, text.as_str())?;
    let mut action = first;
    // Each pass reads a line or asks the validator; their count cannot reach usize::MAX.
    let mut steps: usize = 0;
    while steps < usize::MAX
        invariant
            action_view(action) matches WizardActionView::Accept(t) ==> t.len() > 0 && trim(t) == t,
            action_view(action) matches WizardActionView::Validate(t) ==> t.len() > 0 && trim(t) == t,
            opt_view(wizard.pending) matches Some(p) ==> p.len() > 0 && trim(p) == p,
        decreases usize::MAX - steps,
    {
        steps += 1;
        let event = match action {
            WizardAction::ReadLine => match next_line(&mut input) {
                None => WizardEvent::InputEnded,
                Some(Err(e)) => return Err(WizardError::Io(e)),
                Some(Ok(line)) => {
                    proof {
                        lemma_trim_idempotent(line@);
                    }
                    WizardEvent::Line(line)
                },
            },
            WizardAction::Validate(t) => WizardEvent::Answer(ask_validator(&mut validate, t.as_str())),
            WizardAction::Accept(t) => return Ok(t),
            WizardAction::GiveUp => return Err(WizardError::InputClosed),
        };
        let (text, next) = wizard.step(event);
        say(&mut output, text.as_str())?;
        action = next;
    }
    Err(WizardError::InputClosed)
}

} // verus!

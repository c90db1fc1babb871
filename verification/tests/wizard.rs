use notion_tui::wizard::{run_with, verdict_message, TokenError, Wizard, WizardAction, WizardError, WizardEvent};

/// The lines of `input`, one per call, as `BufRead::lines` yields them.
fn reader(input: &'static [u8]) -> impl FnMut() -> Option<std::io::Result<String>> {
    let mut lines = std::io::BufRead::lines(input);
    move || lines.next()
}

/// Appends what is written to `out`.
fn writer(out: &mut Vec<u8>) -> impl FnMut(&str) -> std::io::Result<()> + '_ {
    move |t| {
        out.extend_from_slice(t.as_bytes());
        Ok(())
    }
}

#[test]
fn accepts_first_valid_token() {
    let input = b"secret_good\n" as &[u8];
    let mut output = Vec::new();
    let token = run_with(reader(input), writer(&mut output), |t| {
        if t == "secret_good" {
            Ok("My Bot".to_string())
        } else {
            Err(TokenError::Invalid)
        }
    })
    .unwrap();
    assert_eq!(token, "secret_good");
    let printed = String::from_utf8(output).unwrap();
    assert!(printed.contains("My Bot"));
    assert!(printed.contains("starting first sync"));
}

#[test]
fn reprompts_on_invalid_token() {
    let input = b"bad\nsecret_good\n" as &[u8];
    let mut output = Vec::new();
    let token = run_with(reader(input), writer(&mut output), |t| {
        if t == "secret_good" {
            Ok("My Bot".to_string())
        } else {
            Err(TokenError::Invalid)
        }
    })
    .unwrap();
    assert_eq!(token, "secret_good");
    assert!(String::from_utf8(output).unwrap().contains("invalid"));
}

#[test]
fn network_failure_message_differs_from_invalid_token() {
    let input = b"tok1\ntok2\n" as &[u8];
    let mut output = Vec::new();
    let mut calls = 0;
    let token = run_with(reader(input), writer(&mut output), |_| {
        calls += 1;
        if calls == 1 {
            Err(TokenError::Network("dns error".into()))
        } else {
            Ok("My Bot".to_string())
        }
    })
    .unwrap();
    assert_eq!(token, "tok2");
    let printed = String::from_utf8(output).unwrap();
    assert!(printed.contains("can't reach Notion — check your connection"));
    assert!(printed.contains("dns error"));
    assert!(!printed.contains("invalid token"), "network failure must not blame the token");
}

#[test]
fn blank_lines_are_skipped_and_tokens_trimmed() {
    let input = b"\n   \n  tok \n" as &[u8];
    let mut output = Vec::new();
    let mut seen = Vec::new();
    let token = run_with(reader(input), writer(&mut output), |t| {
        seen.push(t.to_string());
        Ok("Bot".to_string())
    })
    .unwrap();
    assert_eq!(token, "tok");
    assert_eq!(seen, vec!["tok".to_string()]);
}

#[test]
fn closed_input_without_a_valid_token_is_an_error() {
    let input = b"bad\n" as &[u8];
    let mut output = Vec::new();
    let r = run_with(reader(input), writer(&mut output), |_| Err(TokenError::Invalid));
    assert!(matches!(r, Err(WizardError::InputClosed)));
}

#[test]
fn verdict_messages_are_exact() {
    assert_eq!(
        verdict_message(&Ok("Bot".to_string())),
        "ok — connected as \"Bot\"\nstarting first sync now — large workspaces show progress in the status bar and can take a few minutes.\n"
    );
    assert_eq!(verdict_message(&Err(TokenError::Invalid)), "invalid token, try again:\n");
    assert_eq!(
        verdict_message(&Err(TokenError::Network("x".into()))),
        "can't reach Notion — check your connection (x); try again:\n"
    );
}

#[test]
fn a_failing_output_is_an_io_error() {
    let input = b"secret_good\n" as &[u8];
    let broken = |_: &str| -> std::io::Result<()> {
        Err(std::io::Error::new(std::io::ErrorKind::BrokenPipe, "closed"))
    };
    let r = run_with(reader(input), broken, |_| Ok("My Bot".to_string()));
    assert!(matches!(r, Err(WizardError::Io(_))));
}

use notion_tui::wizard::{answer_outcome, token_of_line};

#[test]
fn lines_offer_their_trimmed_token_and_blank_lines_none() {
    assert_eq!(token_of_line("  secret_1  "), Some("secret_1".to_string()));
    assert_eq!(token_of_line(" \t "), None);
}

#[test]
fn only_an_accepted_answer_finishes_the_wizard() {
    let (msg, done) = answer_outcome("tok", &Ok("My Bot".to_string()));
    assert_eq!(done, Some("tok".to_string()));
    assert!(msg.starts_with("ok — connected as \"My Bot\""));
    let (msg, done) = answer_outcome("tok", &Err(TokenError::Invalid));
    assert_eq!(done, None);
    assert_eq!(msg, "invalid token, try again:\n");
    let (_, done) = answer_outcome("tok", &Err(TokenError::Network("dns".into())));
    assert_eq!(done, None);
}

#[test]
fn wizard_steps_through_a_rejected_then_an_accepted_token() {
    let mut w = Wizard::new();
    let (text, a) = w.step(WizardEvent::Start);
    assert!(text.starts_with("notion-tui first-run setup\n"));
    assert!(matches!(a, WizardAction::ReadLine));
    let (text, a) = w.step(WizardEvent::Line("   ".into()));
    assert_eq!(text, "");
    assert!(matches!(a, WizardAction::ReadLine));
    let (text, a) = w.step(WizardEvent::Line("  bad \t".into()));
    assert_eq!(text, "validating… ");
    assert!(matches!(a, WizardAction::Validate(ref t) if t == "bad"));
    let (text, a) = w.step(WizardEvent::Answer(Err(TokenError::Invalid)));
    assert_eq!(text, "invalid token, try again:\n");
    assert!(matches!(a, WizardAction::ReadLine));
    let (_, a) = w.step(WizardEvent::Line("good".into()));
    assert!(matches!(a, WizardAction::Validate(ref t) if t == "good"));
    let (text, a) = w.step(WizardEvent::Answer(Ok("My Bot".into())));
    assert!(text.starts_with("ok — connected as \"My Bot\"\n"));
    assert!(matches!(a, WizardAction::Accept(ref t) if t == "good"));
}

#[test]
fn wizard_step_shows_the_connection_message_and_gives_up_at_the_end() {
    let mut w = Wizard::new();
    w.step(WizardEvent::Start);
    w.step(WizardEvent::Line("tok1".into()));
    let (text, a) = w.step(WizardEvent::Answer(Err(TokenError::Network("dns error".into()))));
    assert_eq!(text, "can't reach Notion — check your connection (dns error); try again:\n");
    assert!(matches!(a, WizardAction::ReadLine));
    let (text, a) = w.step(WizardEvent::InputEnded);
    assert_eq!(text, "");
    assert!(matches!(a, WizardAction::GiveUp));
}

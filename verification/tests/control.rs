use rusty_tuber::assets::AssetCatalog;
use rusty_tuber::control::{emotion_warning, parse, react, Parsed, HELP_TEXT};
use rusty_tuber::protocol::{EyeLayers, EyeState, LayerCatalog, MouthState};
use rusty_tuber::state::StateCommand;

#[test]
fn parses_emotion_and_clear() {
    assert_eq!(
        parse("emotion happy"),
        Parsed::Command(StateCommand::TriggerEmotion("happy".into()))
    );
    assert_eq!(parse("clear"), Parsed::Command(StateCommand::ClearOverride));
}

#[test]
fn parses_default() {
    assert_eq!(
        parse("default surprised"),
        Parsed::Command(StateCommand::SetDefault("surprised".into()))
    );
    // multi-word name is preserved (catalog matches case-insensitively)
    assert_eq!(
        parse("default Big Smile"),
        Parsed::Command(StateCommand::SetDefault("Big Smile".into()))
    );
}

#[test]
fn parses_mouth_variants() {
    assert_eq!(
        parse("mouth open"),
        Parsed::Command(StateCommand::SetMouthOverride(MouthState::Open))
    );
    assert_eq!(
        parse("MOUTH Partial"),
        Parsed::Command(StateCommand::SetMouthOverride(MouthState::Partial))
    );
    assert_eq!(
        parse("mouth auto"),
        Parsed::Command(StateCommand::ClearMouthOverride)
    );
}

#[test]
fn parses_eyes_variants() {
    assert_eq!(
        parse("eyes closed"),
        Parsed::Command(StateCommand::SetEyesOverride(EyeState::Closed))
    );
    assert_eq!(
        parse("EYES AUTO"),
        Parsed::Command(StateCommand::ClearEyesOverride)
    );
}

#[test]
fn parses_meta_commands() {
    assert_eq!(parse("help"), Parsed::Help);
    assert_eq!(parse("?"), Parsed::Help);
    assert_eq!(parse("quit"), Parsed::Quit);
    assert_eq!(parse("exit"), Parsed::Quit);
    assert_eq!(parse(""), Parsed::Ignore);
    assert_eq!(parse("   "), Parsed::Ignore);
}

#[test]
fn rejects_unknown_and_malformed() {
    assert!(matches!(parse("garbage"), Parsed::Unknown(_)));
    assert!(matches!(parse("emotion"), Parsed::Unknown(_)));
    assert!(matches!(parse("mouth"), Parsed::Unknown(_)));
    assert!(matches!(parse("mouth grin"), Parsed::Unknown(_)));
    assert!(matches!(parse("eyes sideways"), Parsed::Unknown(_)));
}

#[test]
fn refusals_say_why() {
    let why = |line: &str| match parse(line) {
        Parsed::Unknown(s) => s,
        other => panic!("expected a refusal, got {other:?}"),
    };
    assert_eq!(why("Dance now"), "unknown command: dance");
    assert_eq!(why("emotion  "), "usage: emotion <name>");
    assert_eq!(why("default"), "usage: default <name>");
    assert_eq!(why("mouth"), "usage: mouth <closed|partial|medium|open|auto>");
    assert_eq!(
        why("mouth Grin wide"),
        "invalid mouth: Grin wide (closed|partial|medium|open|auto)"
    );
    assert_eq!(why("eyes"), "usage: eyes <open|closed|auto>");
    assert_eq!(
        why("eyes shut"),
        "invalid eyes: shut (open|closed|auto)"
    );
}

#[test]
fn white_space_between_words_counts_once() {
    assert_eq!(
        parse("\tEMOTION \u{a0} very   happy\r\n"),
        Parsed::Command(StateCommand::TriggerEmotion("very happy".into()))
    );
}

fn catalog() -> AssetCatalog {
    let mut c = LayerCatalog::default();
    c.emotions.insert(
        "happy".into(),
        EyeLayers {
            open: Some("eyes/happy/open.png".into()),
            closed: None,
        },
    );
    AssetCatalog(c)
}

#[test]
fn unknown_emotions_are_warned_about() {
    let cat = catalog();
    assert_eq!(
        emotion_warning(&StateCommand::TriggerEmotion("Happy".into()), &cat),
        None
    );
    assert_eq!(
        emotion_warning(&StateCommand::SetDefault("".into()), &cat),
        None
    );
    assert_eq!(emotion_warning(&StateCommand::ClearOverride, &cat), None);
    assert_eq!(
        emotion_warning(&StateCommand::TriggerEmotion("sad".into()), &cat),
        Some("warning: 'sad' is not in the catalog; using default eyes".into())
    );
}

#[test]
fn lines_lead_to_reactions() {
    let cat = catalog();
    let r = react("", &cat);
    assert!(!r.help && r.note.is_none() && r.send.is_none() && !r.stop);
    let r = react("HELP", &cat);
    assert!(r.help && r.note.is_none() && r.send.is_none() && !r.stop);
    let r = react("quit", &cat);
    assert!(r.stop);
    assert_eq!(r.send, Some(StateCommand::Shutdown));
    let r = react("what", &cat);
    assert_eq!(r.note.as_deref(), Some("? unknown command: what"));
    assert!(r.send.is_none() && !r.stop);
    let r = react("default sad", &cat);
    assert_eq!(
        r.note.as_deref(),
        Some("warning: 'sad' is not in the catalog; using default eyes")
    );
    assert_eq!(r.send, Some(StateCommand::SetDefault("sad".into())));
    let r = react("emotion happy", &cat);
    assert!(r.note.is_none());
    assert!(r.send.is_some());
}

#[test]
fn help_lists_every_command() {
    for word in [
        "emotion", "clear", "default", "mouth", "eyes", "help", "quit", "auto",
    ] {
        assert!(HELP_TEXT.contains(word));
    }
    assert_eq!(HELP_TEXT.lines().count(), 10);
    assert!(HELP_TEXT.ends_with("shut down\n"));
}

#[test]
fn comments_are_ignored() {
    let cat = catalog();
    assert_eq!(parse("# a note"), Parsed::Ignore);
    assert_eq!(parse("   #quit"), Parsed::Ignore);
    assert_eq!(
        parse("emotion #1"),
        Parsed::Command(StateCommand::TriggerEmotion("#1".into()))
    );
    let r = react("#\n", &cat);
    assert!(!r.help && r.note.is_none() && r.send.is_none() && !r.stop);
}

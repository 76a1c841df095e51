//! Control interface: text commands that drive the avatar.
//!
//! | command | effect |
//! |---------|--------|
//! | `emotion <name>` | Trigger an expression; it reverts on its timer. |
//! | `clear` | Drop the emotion override. |
//! | `default <name>` | Change the resting emotion. |
//! | `mouth <closed\|partial\|medium\|open>` | Force a mouth level. |
//! | `mouth auto` | Resume the microphone's mouth. |
//! | `eyes <open\|closed>` | Force the eyes. |
//! | `eyes auto` | Resume blinking. |
//! | `help` / `?` | Show the command list. |
//! | `quit` / `exit` | Shut down. |
//!
//! Commands count in any case; blank lines are ignored, and so are comments,
//! which begin with `#`.
use crate::assets::AssetCatalog;
use crate::protocol::{EyeState, MouthState};
use crate::state::StateCommand;
use crate::text;
use crate::text::{
    chars_of, concat2, concat3, join_words, same_text, same_text_ci, to_lower, words,
};
use vstd::prelude::*;

verus! {

/// Outcome of parsing one input line.
#[derive(Debug, PartialEq)]
pub enum Parsed {
    /// A command for the state machine.
    Command(StateCommand),
    /// Show the help text.
    Help,
    /// Shut down.
    Quit,
    /// A blank line or a comment.
    Ignore,
    /// Unrecognized input, with a short reason.
    Unknown(String),
}

/// What a line asks for.
pub enum Said {
    Trigger(Seq<char>),
    Clear,
    Default(Seq<char>),
    Mouth(MouthState),
    MouthAuto,
    Eyes(EyeState),
    EyesAuto,
    Help,
    Quit,
    Nothing,
    Unknown(Seq<char>),
    /// A command that no line gives.
    Internal,
}

impl View for Parsed {
    type V = Said;

    open spec fn view(&self) -> Said {
        match *self {
            Parsed::Command(cmd) => match cmd {
                StateCommand::TriggerEmotion(s) => Said::Trigger(s@),
                StateCommand::ClearOverride => Said::Clear,
                StateCommand::SetDefault(s) => Said::Default(s@),
                StateCommand::SetMouthOverride(m) => Said::Mouth(m),
                StateCommand::ClearMouthOverride => Said::MouthAuto,
                StateCommand::SetEyesOverride(e) => Said::Eyes(e),
                StateCommand::ClearEyesOverride => Said::EyesAuto,
                _ => Said::Internal,
            },
            Parsed::Help => Said::Help,
            Parsed::Quit => Said::Quit,
            Parsed::Ignore => Said::Nothing,
            Parsed::Unknown(s) => Said::Unknown(s@),
        }
    }
}

/// What a verb in lower case asks for with its argument.
pub open spec fn meaning(verb: Seq<char>, arg: Seq<char>) -> Said {
    if verb == "help"@ || verb == "?"@ {
        Said::Help
    } else if verb == "quit"@ || verb == "exit"@ {
        Said::Quit
    } else if verb == "clear"@ {
        Said::Clear
    } else if verb == "emotion"@ {
        if arg.len() == 0 {
            Said::Unknown("usage: emotion <name>"@)
        } else {
            Said::Trigger(arg)
        }
    } else if verb == "default"@ {
        if arg.len() == 0 {
            Said::Unknown("usage: default <name>"@)
        } else {
            Said::Default(arg)
        }
    } else if verb == "mouth"@ {
        if arg.len() == 0 {
            Said::Unknown("usage: mouth <closed|partial|medium|open|auto>"@)
        } else if text::lowered(arg) == text::lowered("auto"@) {
            Said::MouthAuto
        } else {
            match MouthState::named(arg) {
                Some(m) => Said::Mouth(m),
                None => Said::Unknown(
                    "invalid mouth: "@ + arg + " (closed|partial|medium|open|auto)"@,
                ),
            }
        }
    } else if verb == "eyes"@ {
        if arg.len() == 0 {
            Said::Unknown("usage: eyes <open|closed|auto>"@)
        } else if text::lowered(arg) == text::lowered("auto"@) {
            Said::EyesAuto
        } else {
            match EyeState::named(arg) {
                Some(e) => Said::Eyes(e),
                None => Said::Unknown("invalid eyes: "@ + arg + " (open|closed|auto)"@),
            }
        }
    } else {
        Said::Unknown("unknown command: "@ + verb)
    }
}

/// The word begins a comment.
pub open spec fn opens_comment(word: Seq<char>) -> bool {
    word.len() > 0 && word[0] == '#'
}

/// What a line asks for: the first word is the verb, the others, with single
/// spaces between them, are its argument. A line without words, or whose first
/// word begins a comment, asks for nothing.
pub open spec fn said(line: Seq<char>) -> Said {
    let w = text::words_of(line);
    if w.len() == 0 || opens_comment(w[0]) {
        Said::Nothing
    } else {
        meaning(text::lowered(w[0]), text::joined(w.skip(1)))
    }
}

fn parse_mouth(arg: &str) -> (r: Parsed)
    ensures
        r@ == meaning("mouth"@, arg@),
{
    proof {
        verbs_differ();
    }
    if arg.is_empty() {
        return Parsed::Unknown("usage: mouth <closed|partial|medium|open|auto>".to_owned());
    }
    if same_text_ci(arg, "auto") {
        return Parsed::Command(StateCommand::ClearMouthOverride);
    }
    match MouthState::from_str_ci(arg) {
        Some(m) => Parsed::Command(StateCommand::SetMouthOverride(m)),
        None => Parsed::Unknown(
            concat3("invalid mouth: ", arg, " (closed|partial|medium|open|auto)"),
        ),
    }
}

fn parse_eyes(arg: &str) -> (r: Parsed)
    ensures
        r@ == meaning("eyes"@, arg@),
{
    proof {
        verbs_differ();
    }
    if arg.is_empty() {
        return Parsed::Unknown("usage: eyes <open|closed|auto>".to_owned());
    }
    if same_text_ci(arg, "auto") {
        return Parsed::Command(StateCommand::ClearEyesOverride);
    }
    match EyeState::from_str_ci(arg) {
        Some(e) => Parsed::Command(StateCommand::SetEyesOverride(e)),
        None => Parsed::Unknown(concat3("invalid eyes: ", arg, " (open|closed|auto)")),
    }
}

/// No two verbs are the same.
proof fn verbs_differ()
    ensures
        "mouth"@ != "help"@ && "mouth"@ != "?"@ && "mouth"@ != "quit"@ && "mouth"@ != "exit"@
            && "mouth"@ != "clear"@ && "mouth"@ != "emotion"@ && "mouth"@ != "default"@,
        "eyes"@ != "help"@ && "eyes"@ != "?"@ && "eyes"@ != "quit"@ && "eyes"@ != "exit"@
            && "eyes"@ != "clear"@ && "eyes"@ != "emotion"@ && "eyes"@ != "default"@ && "eyes"@
            != "mouth"@,
{
    reveal_strlit("mouth");
    reveal_strlit("eyes");
    reveal_strlit("help");
    reveal_strlit("?");
    reveal_strlit("quit");
    reveal_strlit("exit");
    reveal_strlit("clear");
    reveal_strlit("emotion");
    reveal_strlit("default");
    assert("mouth"@[0] == 'm' && "mouth"@.len() == 5);
    assert("clear"@[0] == 'c');
    assert("eyes"@[1] == 'y' && "eyes"@.len() == 4);
    assert("help"@[0] == 'h' && "quit"@[0] == 'q' && "exit"@[1] == 'x');
}

/// Parses a single input line. Names keep their case.
pub fn parse(line: &str) -> (r: Parsed)
    ensures
        r@ == said(line@),
{
    let tokens = words(line);
    let ghost w = text::texts(tokens@);
    if tokens.len() == 0 {
        assert(w.len() == 0);
        return Parsed::Ignore;
    }
    assert(w[0] == tokens@[0]@);
    let first = chars_of(tokens[0].as_str());
    if first.len() > 0 && first[0] == '#' {
        return Parsed::Ignore;
    }
    let verb = to_lower(tokens[0].as_str());
    let arg = join_words(&tokens, 1);
    let v = verb.as_str();
    if same_text(v, "help") || same_text(v, "?") {
        Parsed::Help
    } else if same_text(v, "quit") || same_text(v, "exit") {
        Parsed::Quit
    } else if same_text(v, "clear") {
        Parsed::Command(StateCommand::ClearOverride)
    } else if same_text(v, "emotion") {
        if arg.as_str().is_empty() {
            Parsed::Unknown("usage: emotion <name>".to_owned())
        } else {
            Parsed::Command(StateCommand::TriggerEmotion(arg))
        }
    } else if same_text(v, "default") {
        if arg.as_str().is_empty() {
            Parsed::Unknown("usage: default <name>".to_owned())
        } else {
            Parsed::Command(StateCommand::SetDefault(arg))
        }
    } else if same_text(v, "mouth") {
        parse_mouth(arg.as_str())
    } else if same_text(v, "eyes") {
        parse_eyes(arg.as_str())
    } else {
        Parsed::Unknown(concat2("unknown command: ", v))
    }
}

/// The emotion that a command names.
pub open spec fn named_by(cmd: StateCommand) -> Option<Seq<char>> {
    match cmd {
        StateCommand::TriggerEmotion(n) => Some(n@),
        StateCommand::SetDefault(n) => Some(n@),
        _ => None,
    }
}

/// A heads-up where the command names an emotion that the catalog lacks.
pub open spec fn warning(cmd: StateCommand, catalog: AssetCatalog) -> Option<Seq<char>> {
    match named_by(cmd) {
        Some(n) => if n.len() == 0 || catalog.0.emotions@.dom().contains(text::lowered(n)) {
            None
        } else {
            Some("warning: '"@ + n + "' is not in the catalog; using default eyes"@)
        },
        None => None,
    }
}

/// A heads-up where `cmd` names an emotion that is not in the catalog and will
/// show the default eyes. The command is forwarded either way.
pub fn emotion_warning(cmd: &StateCommand, catalog: &AssetCatalog) -> (r: Option<String>)
    ensures
        text::opt_text(r) == warning(*cmd, *catalog),
{
    let name = match cmd {
        StateCommand::TriggerEmotion(n) => n,
        StateCommand::SetDefault(n) => n,
        _ => {
            return None;
        },
    };
    if name.as_str().is_empty() || catalog.has_emotion(name.as_str()) {
        None
    } else {
        Some(
            concat3(
                "warning: '",
                name.as_str(),
                "' is not in the catalog; using default eyes",
            ),
        )
    }
}

/// What to do about an input line.
#[derive(Debug)]
pub struct Reaction {
    /// Print the help text.
    pub help: bool,
    /// Print this line as a diagnostic.
    pub note: Option<String>,
    /// Send this command to the state machine.
    pub send: Option<StateCommand>,
    /// Read no more lines.
    pub stop: bool,
}

/// The reaction fits what the line asks for.
pub open spec fn fits(r: Reaction, asked: Said, catalog: AssetCatalog) -> bool {
    &&& r.help == (asked is Help)
    &&& r.stop == (asked is Quit)
    &&& match asked {
        Said::Help | Said::Nothing => r.note is None && r.send is None,
        Said::Quit => r.note is None && r.send == Some(StateCommand::Shutdown),
        Said::Unknown(why) => text::opt_text(r.note) == Some("? "@ + why) && r.send is None,
        _ => {
            &&& r.send matches Some(cmd) && Parsed::Command(cmd)@ == asked
            &&& text::opt_text(r.note) == warning(r.send->0, catalog)
        },
    }
}

/// Decides what to do about one input line.
pub fn react(line: &str, catalog: &AssetCatalog) -> (r: Reaction)
    ensures
        fits(r, said(line@), *catalog),
{
    match parse(line) {
        Parsed::Ignore => Reaction { help: false, note: None, send: None, stop: false },
        Parsed::Help => Reaction { help: true, note: None, send: None, stop: false },
        Parsed::Quit => Reaction {
            help: false,
            note: None,
            send: Some(StateCommand::Shutdown),
            stop: true,
        },
        Parsed::Unknown(msg) => Reaction {
            help: false,
            note: Some(concat2("? ", msg.as_str())),
            send: None,
            stop: false,
        },
        Parsed::Command(cmd) => {
            let note = emotion_warning(&cmd, catalog);
            Reaction { help: false, note, send: Some(cmd), stop: false }
        },
    }
}

/// The help text.
pub const HELP_TEXT: &'static str =
    "Rusty-Tuber commands (case-insensitive):\n  emotion <name>          trigger an eye-expression set (auto-reverts on timer)\n  clear                   drop the emotion override (return to resting face)\n  default <name>          change the resting emotion\n  mouth <closed|partial|medium|open>  force a mouth level (ignores mic)\n  mouth auto              resume mic-driven mouth\n  eyes <open|closed>      force eyes (pauses blinking)\n  eyes auto               resume blinking\n  help | ?                show this message\n  quit | exit             shut down\n";

// ---------------------------------------------------------------------------
// Laws
// ---------------------------------------------------------------------------
/// The verb counts in any ASCII case, and white space between words counts
/// once: lines with the same words, up to the case of the first, ask for the
/// same.
pub proof fn case_and_spacing_are_ignored(a: Seq<char>, b: Seq<char>)
    requires
        text::words_of(a).len() > 0,
        text::words_of(b).len() > 0,
        text::lowered(text::words_of(a)[0]) == text::lowered(text::words_of(b)[0]),
        text::words_of(a).skip(1) == text::words_of(b).skip(1),
    ensures
        said(a) == said(b),
{
    let (v, w) = (text::words_of(a)[0], text::words_of(b)[0]);
    assert(v.len() == text::lowered(v).len() && w.len() == text::lowered(w).len());
    if v.len() > 0 {
        assert(text::lowered(v)[0] == text::lower_char(v[0]));
        assert(text::lowered(w)[0] == text::lower_char(w[0]));
    }
}

/// A comment asks for nothing, whatever it says and whatever white space
/// stands before it.
pub proof fn comment_is_ignored(line: Seq<char>, k: int)
    requires
        0 <= k < line.len(),
        line[k] == '#',
        forall|i: int| 0 <= i < k ==> text::is_space(#[trigger] line[i]),
    ensures
        said(line) == Said::Nothing,
    decreases k,
{
    if k > 0 {
        let rest = line.drop_first();
        assert forall|i: int| 0 <= i < k - 1 implies text::is_space(#[trigger] rest[i]) by {
            assert(rest[i] == line[i + 1]);
        }
        comment_is_ignored(rest, k - 1);
        assert(text::is_space(line[0]));
        assert(text::words_of(line) == text::words_of(rest));
    } else {
        text::word_len_bound(line);
        assert(!text::is_space('#'));
        assert(text::word_len(line) >= 1);
        assert(text::words_of(line)[0] == line.take(text::word_len(line) as int));
    }
}

/// A blank line asks for nothing.
pub proof fn blank_line_is_ignored(line: Seq<char>)
    requires
        forall|i: int| 0 <= i < line.len() ==> text::is_space(#[trigger] line[i]),
    ensures
        said(line) == Said::Nothing,
    decreases line.len(),
{
    if line.len() > 0 {
        let rest = line.drop_first();
        assert forall|i: int| 0 <= i < rest.len() implies text::is_space(#[trigger] rest[i]) by {
            assert(rest[i] == line[i + 1]);
        }
        blank_line_is_ignored(rest);
        assert(text::is_space(line[0]));
        assert(text::words_of(line) == text::words_of(rest));
    }
}

/// Each mouth level can be forced by its name, and each eye state by its.
pub proof fn every_level_has_a_command(m: MouthState, e: EyeState)
    ensures
        meaning("mouth"@, m.name_text()) == Said::Mouth(m),
        meaning("eyes"@, e.name_text()) == Said::Eyes(e),
{
    verbs_differ();
    crate::protocol::mouth_names_are_lower_case(m);
    reveal_strlit("auto");
    reveal_strlit("closed");
    reveal_strlit("partial");
    reveal_strlit("medium");
    reveal_strlit("open");
    assert(text::lowered(e.name_text()) =~= e.name_text());
    crate::protocol::eye_name_parses_back(e, e.name_text());
    assert(text::lowered("auto"@)[0] == 'a');
    assert(text::lowered("auto"@).len() == 4);
    assert(m.name_text()[0] != 'a');
    assert(e.name_text()[0] != 'a');
}

/// Each verb, in any case, gives its own command with the words behind it, and
/// a verb that needs a word and has none, or that is not known, gives none.
pub proof fn verbs_give_their_commands(line: Seq<char>)
    requires
        text::words_of(line).len() > 0,
        text::words_of(line)[0].len() > 0,
        text::words_of(line)[0][0] != '#',
    ensures
        ({
            let w = text::words_of(line);
            let verb = text::lowered(w[0]);
            let arg = text::joined(w.skip(1));
            let low = text::lowered(arg);
            let s = said(line);
            &&& s is Help <==> verb == "help"@ || verb == "?"@
            &&& s is Quit <==> verb == "quit"@ || verb == "exit"@
            &&& s is Clear <==> verb == "clear"@
            &&& s is Trigger <==> verb == "emotion"@ && arg.len() > 0
            &&& s is Trigger ==> s == Said::Trigger(arg)
            &&& s is Default <==> verb == "default"@ && arg.len() > 0
            &&& s is Default ==> s == Said::Default(arg)
            &&& s is MouthAuto <==> verb == "mouth"@ && low == "auto"@
            &&& s == Said::Mouth(MouthState::Closed) <==> verb == "mouth"@ && low == "closed"@
            &&& s == Said::Mouth(MouthState::Partial) <==> verb == "mouth"@ && low == "partial"@
            &&& s == Said::Mouth(MouthState::Medium) <==> verb == "mouth"@ && low == "medium"@
            &&& s == Said::Mouth(MouthState::Open) <==> verb == "mouth"@ && low == "open"@
            &&& s is EyesAuto <==> verb == "eyes"@ && low == "auto"@
            &&& s == Said::Eyes(EyeState::Open) <==> verb == "eyes"@ && low == "open"@
            &&& s == Said::Eyes(EyeState::Closed) <==> verb == "eyes"@ && low == "closed"@
            &&& !(s is Nothing) && !(s is Internal)
        }),
{
    let arg = text::joined(text::words_of(line).skip(1));
    all_verbs_differ();
    crate::protocol::only_level_names_are_levels(arg);
    crate::protocol::only_eye_names_are_eyes(arg);
    reveal_strlit("auto");
    reveal_strlit("closed");
    reveal_strlit("partial");
    reveal_strlit("medium");
    reveal_strlit("open");
    assert(text::lowered("auto"@) =~= "auto"@);
    assert("auto"@[0] == 'a' && "closed"@[0] == 'c' && "partial"@[0] == 'p' && "medium"@[0] == 'm'
        && "open"@[0] == 'o');
    assert(text::lowered(arg).len() == arg.len());
}

proof fn all_verbs_differ()
    ensures
        "help"@ != "quit"@ && "help"@ != "exit"@ && "help"@ != "clear"@ && "help"@ != "emotion"@
            && "help"@ != "default"@ && "help"@ != "mouth"@ && "help"@ != "eyes"@,
        "?"@ != "quit"@ && "?"@ != "exit"@ && "?"@ != "clear"@ && "?"@ != "emotion"@ && "?"@
            != "default"@ && "?"@ != "mouth"@ && "?"@ != "eyes"@,
        "quit"@ != "clear"@ && "quit"@ != "emotion"@ && "quit"@ != "default"@ && "quit"@
            != "mouth"@ && "quit"@ != "eyes"@,
        "exit"@ != "clear"@ && "exit"@ != "emotion"@ && "exit"@ != "default"@ && "exit"@
            != "mouth"@ && "exit"@ != "eyes"@,
        "clear"@ != "emotion"@ && "clear"@ != "default"@ && "clear"@ != "mouth"@ && "clear"@
            != "eyes"@,
        "emotion"@ != "default"@ && "emotion"@ != "mouth"@ && "emotion"@ != "eyes"@,
        "default"@ != "mouth"@ && "default"@ != "eyes"@,
        "mouth"@ != "eyes"@,
{
    reveal_strlit("mouth");
    reveal_strlit("eyes");
    reveal_strlit("help");
    reveal_strlit("?");
    reveal_strlit("quit");
    reveal_strlit("exit");
    reveal_strlit("clear");
    reveal_strlit("emotion");
    reveal_strlit("default");
    assert("mouth"@[0] == 'm' && "clear"@[0] == 'c' && "eyes"@[1] == 'y' && "eyes"@[0] == 'e');
    assert("help"@[0] == 'h' && "quit"@[0] == 'q' && "exit"@[1] == 'x' && "exit"@[0] == 'e');
    assert("?"@[0] == '?' && "emotion"@[0] == 'e' && "emotion"@[1] == 'm' && "default"@[0] == 'd');
}

/// A line makes the reader stop exactly when it asks to quit, which also shuts
/// the avatar down; it makes it print help exactly when it asks for that; its
/// command is passed on; and a line that is not understood is answered and
/// changes nothing.
pub proof fn lines_are_reacted_to(r: Reaction, asked: Said, catalog: AssetCatalog)
    requires
        fits(r, asked, catalog),
    ensures
        r.stop <==> asked is Quit,
        asked is Quit ==> r.send == Some(StateCommand::Shutdown),
        r.help <==> asked is Help,
        asked is Help || asked is Nothing ==> r.send is None && r.note is None,
        asked matches Said::Unknown(why) ==> r.send is None && (r.note matches Some(n) && n@ == "? "@
            + why),
        asked is Clear ==> r.send == Some(StateCommand::ClearOverride),
        asked is MouthAuto ==> r.send == Some(StateCommand::ClearMouthOverride),
        asked is EyesAuto ==> r.send == Some(StateCommand::ClearEyesOverride),
        asked matches Said::Mouth(m) ==> r.send == Some(StateCommand::SetMouthOverride(m)),
        asked matches Said::Eyes(e) ==> r.send == Some(StateCommand::SetEyesOverride(e)),
        asked matches Said::Trigger(n) ==> (r.send matches Some(StateCommand::TriggerEmotion(s))
            && s@ == n),
        asked matches Said::Default(n) ==> (r.send matches Some(StateCommand::SetDefault(s)) && s@
            == n),
{
}

/// An emotion that is named gets a warning exactly when it is not empty and the
/// catalog lacks it; no other command gets one.
pub proof fn unknown_emotions_are_warned_of(cmd: StateCommand, catalog: AssetCatalog)
    ensures
        cmd matches StateCommand::TriggerEmotion(n) ==> (warning(cmd, catalog) is Some <==> n@.len()
            > 0 && !catalog.0.emotions@.dom().contains(text::lowered(n@))),
        cmd matches StateCommand::SetDefault(n) ==> (warning(cmd, catalog) is Some <==> n@.len() > 0
            && !catalog.0.emotions@.dom().contains(text::lowered(n@))),
        !(cmd is TriggerEmotion) && !(cmd is SetDefault) ==> warning(cmd, catalog) is None,
        cmd matches StateCommand::TriggerEmotion(n) ==> (warning(cmd, catalog) matches Some(t) ==> t
            == "warning: '"@ + n@ + "' is not in the catalog; using default eyes"@),
        cmd matches StateCommand::SetDefault(n) ==> (warning(cmd, catalog) matches Some(t) ==> t
            == "warning: '"@ + n@ + "' is not in the catalog; using default eyes"@),
{
}

/// What is not understood is answered with the reason: the usage of a verb that
/// lacks its word, the word that is no level or state, or the unknown verb.
pub proof fn reasons_are_given(line: Seq<char>)
    requires
        text::words_of(line).len() > 0,
        text::words_of(line)[0].len() > 0,
        text::words_of(line)[0][0] != '#',
    ensures
        ({
            let w = text::words_of(line);
            let verb = text::lowered(w[0]);
            let arg = text::joined(w.skip(1));
            let lacks = arg.len() == 0;
            match said(line) {
                Said::Unknown(why) => {
                    &&& verb == "emotion"@ ==> lacks && why == "usage: emotion <name>"@
                    &&& verb == "default"@ ==> lacks && why == "usage: default <name>"@
                    &&& verb == "mouth"@ && lacks ==> why
                        == "usage: mouth <closed|partial|medium|open|auto>"@
                    &&& verb == "mouth"@ && !lacks ==> why == "invalid mouth: "@ + arg
                        + " (closed|partial|medium|open|auto)"@
                    &&& verb == "eyes"@ && lacks ==> why == "usage: eyes <open|closed|auto>"@
                    &&& verb == "eyes"@ && !lacks ==> why == "invalid eyes: "@ + arg
                        + " (open|closed|auto)"@
                    &&& verb != "emotion"@ && verb != "default"@ && verb != "mouth"@ && verb
                        != "eyes"@ ==> why == "unknown command: "@ + verb
                },
                _ => true,
            }
        }),
{
    all_verbs_differ();
}

/// What a parsed line says is the command that it holds.
pub proof fn parsed_lines_hold_what_they_say(p: Parsed)
    ensures
        p@ is Help <==> p == Parsed::Help,
        p@ is Quit <==> p == Parsed::Quit,
        p@ is Nothing <==> p == Parsed::Ignore,
        p@ matches Said::Unknown(why) ==> (p matches Parsed::Unknown(s) && s@ == why),
        p@ is Clear <==> p == Parsed::Command(StateCommand::ClearOverride),
        p@ is MouthAuto <==> p == Parsed::Command(StateCommand::ClearMouthOverride),
        p@ is EyesAuto <==> p == Parsed::Command(StateCommand::ClearEyesOverride),
        p@ matches Said::Mouth(m) ==> p == Parsed::Command(StateCommand::SetMouthOverride(m)),
        p@ matches Said::Eyes(e) ==> p == Parsed::Command(StateCommand::SetEyesOverride(e)),
        p@ matches Said::Trigger(n) ==> (p matches Parsed::Command(StateCommand::TriggerEmotion(s))
            && s@ == n),
        p@ matches Said::Default(n) ==> (p matches Parsed::Command(StateCommand::SetDefault(s))
            && s@ == n),
{
}

} // verus!

//! The control surface for network clients: what each request is answered,
//! which commands it gives, and what observers are sent.
//!
//! Requests come over a live socket as [`ClientMessage`]s, or one by one as
//! calls that are answered with a status. Both are checked in the same way
//! before a command is passed on.
use crate::assets::{utf8_text, AssetCatalog};
use crate::binary32::Binary32;
use crate::protocol::{
    AvatarModel, AvatarSnapshot, ClientMessage, EnvelopeConfig, EnvelopeError, EyeState,
    MessageModel, MouthConfig, MouthConfigError, MouthState, ServerMessage,
};
use crate::state;
use crate::state::StateCommand;
use crate::text;
use crate::text::{
    chars_of, concat2, concat3, contains, find_chars, find_last, parse_octet, same_text,
    split_first, string_of, to_lower,
};
use vstd::prelude::*;
use vstd::utf8;

verus! {

/// Largest message that a socket takes, in bytes.
pub const MAX_WS_MESSAGE_SIZE: usize = 262_144;

/// Largest frame that a socket takes, in bytes.
pub const MAX_WS_FRAME_SIZE: usize = 262_144;

/// How many sockets may be open at once.
pub const MAX_WS_CLIENTS: usize = 16;

pub const NO_CONTENT: u16 = 204;

pub const OK: u16 = 200;

pub const BAD_REQUEST: u16 = 400;

pub const FORBIDDEN: u16 = 403;

pub const NOT_FOUND: u16 = 404;

pub const SERVICE_UNAVAILABLE: u16 = 503;

// ---------------------------------------------------------------------------
// Refusals
// ---------------------------------------------------------------------------
/// Why a request is refused.
#[derive(Debug)]
pub enum Refusal {
    /// For the reason given.
    Text(String),
    /// The mouth configuration is no good.
    Mouth(MouthConfigError),
    /// The envelope is no good.
    Envelope(EnvelopeError),
}

/// What a [`Refusal`] says.
pub enum RefusalModel {
    Text(Seq<char>),
    Mouth(MouthConfigError),
    Envelope(EnvelopeError),
}

impl View for Refusal {
    type V = RefusalModel;

    open spec fn view(&self) -> RefusalModel {
        match *self {
            Refusal::Text(s) => RefusalModel::Text(s@),
            Refusal::Mouth(e) => RefusalModel::Mouth(e),
            Refusal::Envelope(e) => RefusalModel::Envelope(e),
        }
    }
}

impl Refusal {
    /// The numbers that the text mentions, in order.
    pub open spec fn mentioned(self) -> Seq<Binary32> {
        match self {
            Refusal::Text(_) => seq![],
            Refusal::Mouth(e) => e.mentioned(),
            Refusal::Envelope(e) => seq![e.value],
        }
    }

    /// The text, given the decimal forms of the numbers it mentions.
    pub open spec fn text(self, shown: Seq<Seq<char>>) -> Seq<char> {
        match self {
            Refusal::Text(s) => s@,
            Refusal::Mouth(e) => e.text(shown),
            Refusal::Envelope(_) => "attack_ms/release_ms must be in [0.1, 2000] ms (got "@
                + shown[0] + ")"@,
        }
    }

    /// The numbers that the text mentions, in order.
    pub fn numbers(&self) -> (r: Vec<Binary32>)
        ensures
            r@ == self.mentioned(),
    {
        match self {
            Refusal::Text(_) => {
                let r: Vec<Binary32> = Vec::new();
                assert(r@ =~= self.mentioned());
                r
            },
            Refusal::Mouth(e) => e.numbers(),
            Refusal::Envelope(e) => {
                let mut r: Vec<Binary32> = Vec::new();
                r.push(e.value);
                assert(r@ =~= self.mentioned());
                r
            },
        }
    }

    /// The text, given the decimal forms of [`Refusal::numbers`].
    pub fn message(&self, shown: &Vec<String>) -> (r: String)
        requires
            shown@.len() == self.mentioned().len(),
        ensures
            r@ == self.text(text::texts(shown@)),
    {
        match self {
            Refusal::Text(s) => s.clone(),
            Refusal::Mouth(e) => e.message(shown),
            Refusal::Envelope(e) => e.message(shown[0].as_str()),
        }
    }
}

/// The text for a message that cannot be understood.
pub fn invalid_message(cause: &str) -> (r: String)
    ensures
        r@ == "invalid message: "@ + cause@,
{
    concat2("invalid message: ", cause)
}

// ---------------------------------------------------------------------------
// Emotions
// ---------------------------------------------------------------------------
/// The key of an emotion that the catalog knows, in any ASCII case.
pub open spec fn emotion_key(catalog: AssetCatalog, raw: Seq<char>) -> Option<Seq<char>> {
    if catalog.0.emotions@.dom().contains(text::lowered(raw)) {
        Some(text::lowered(raw))
    } else {
        None
    }
}

/// Why an emotion is refused.
pub open spec fn unknown_emotion(raw: Seq<char>) -> Seq<char> {
    "unknown emotion: "@ + raw
}

/// The catalog's key for an emotion name, or the reason why there is none.
pub fn resolve_emotion(catalog: &AssetCatalog, raw: &str) -> (r: Result<String, String>)
    ensures
        match r {
            Ok(key) => emotion_key(*catalog, raw@) == Some(key@),
            Err(msg) => emotion_key(*catalog, raw@) is None && msg@ == unknown_emotion(raw@),
        },
{
    let key = to_lower(raw);
    proof {
        text::lowered_idempotent(raw@);
    }
    if catalog.has_emotion(key.as_str()) {
        Ok(key)
    } else {
        Err(concat2("unknown emotion: ", raw))
    }
}

// ---------------------------------------------------------------------------
// Requests over a socket
// ---------------------------------------------------------------------------
/// A command with its texts as sequences, as far as clients can give it.
pub enum Order {
    Trigger(Seq<char>),
    Default(Seq<char>),
    Clear,
    Mouth(MouthState),
    ClearMouth,
    MouthConfig(MouthConfig),
    Envelope(EnvelopeConfig),
    Eyes(EyeState),
    ClearEyes,
    /// A command that no client gives.
    Internal,
}

/// The order that a command carries out.
pub open spec fn order_of(cmd: StateCommand) -> Order {
    match cmd {
        StateCommand::TriggerEmotion(s) => Order::Trigger(s@),
        StateCommand::SetDefault(s) => Order::Default(s@),
        StateCommand::ClearOverride => Order::Clear,
        StateCommand::SetMouthOverride(m) => Order::Mouth(m),
        StateCommand::ClearMouthOverride => Order::ClearMouth,
        StateCommand::SetMouthConfig(c) => Order::MouthConfig(c),
        StateCommand::SetEnvelope(c) => Order::Envelope(c),
        StateCommand::SetEyesOverride(e) => Order::Eyes(e),
        StateCommand::ClearEyesOverride => Order::ClearEyes,
        _ => Order::Internal,
    }
}

/// What a client's message leads to: an order, a refusal, or nothing.
pub enum Outcome {
    Do(Order),
    Refuse(RefusalModel),
    Nothing,
}

/// What a request to show or rest on an emotion leads to.
pub open spec fn emotion_outcome(catalog: AssetCatalog, raw: Seq<char>, rest: bool) -> Outcome {
    match emotion_key(catalog, raw) {
        Some(key) => Outcome::Do(
            if rest {
                Order::Default(key)
            } else {
                Order::Trigger(key)
            },
        ),
        None => Outcome::Refuse(RefusalModel::Text(unknown_emotion(raw))),
    }
}

/// What a mouth configuration leads to.
pub open spec fn mouth_config_outcome(config: MouthConfig) -> Outcome {
    match config.verdict() {
        Ok(_) => Outcome::Do(Order::MouthConfig(config)),
        Err(e) => Outcome::Refuse(RefusalModel::Mouth(e)),
    }
}

/// What an envelope leads to.
pub open spec fn envelope_outcome(config: EnvelopeConfig) -> Outcome {
    match config.verdict() {
        Ok(_) => Outcome::Do(Order::Envelope(config)),
        Err(e) => Outcome::Refuse(RefusalModel::Envelope(e)),
    }
}

/// What a client's message leads to.
pub open spec fn outcome(msg: ClientMessage, catalog: AssetCatalog) -> Outcome {
    match msg {
        ClientMessage::Hello => Outcome::Nothing,
        ClientMessage::TriggerEmotion { emotion } => emotion_outcome(catalog, emotion@, false),
        ClientMessage::SetDefault { emotion } => emotion_outcome(catalog, emotion@, true),
        ClientMessage::ClearOverride => Outcome::Do(Order::Clear),
        ClientMessage::SetMouthOverride { mouth } => Outcome::Do(Order::Mouth(mouth)),
        ClientMessage::ClearMouthOverride => Outcome::Do(Order::ClearMouth),
        ClientMessage::SetMouthConfig { config } => mouth_config_outcome(config),
        ClientMessage::SetEnvelope { config } => envelope_outcome(config),
        ClientMessage::SetEyesOverride { eyes } => Outcome::Do(Order::Eyes(eyes)),
        ClientMessage::ClearEyesOverride => Outcome::Do(Order::ClearEyes),
    }
}

/// What to do about a client's message.
#[derive(Debug)]
pub enum ClientAction {
    /// Pass the command on.
    Send(StateCommand),
    /// Reply with an error.
    Reply(Refusal),
    /// Do nothing.
    Nothing,
}

impl View for ClientAction {
    type V = Outcome;

    open spec fn view(&self) -> Outcome {
        match *self {
            ClientAction::Send(cmd) => Outcome::Do(order_of(cmd)),
            ClientAction::Reply(why) => Outcome::Refuse(why@),
            ClientAction::Nothing => Outcome::Nothing,
        }
    }
}

fn emotion_action(catalog: &AssetCatalog, raw: &str, rest: bool) -> (r: ClientAction)
    ensures
        r@ == emotion_outcome(*catalog, raw@, rest),
{
    match resolve_emotion(catalog, raw) {
        Ok(key) => if rest {
            ClientAction::Send(StateCommand::SetDefault(key))
        } else {
            ClientAction::Send(StateCommand::TriggerEmotion(key))
        },
        Err(msg) => ClientAction::Reply(Refusal::Text(msg)),
    }
}

fn mouth_config_action(config: MouthConfig) -> (r: ClientAction)
    ensures
        r@ == mouth_config_outcome(config),
{
    match config.validate() {
        Ok(()) => ClientAction::Send(StateCommand::SetMouthConfig(config)),
        Err(e) => ClientAction::Reply(Refusal::Mouth(e)),
    }
}

fn envelope_action(config: EnvelopeConfig) -> (r: ClientAction)
    ensures
        r@ == envelope_outcome(config),
{
    match config.validate() {
        Ok(()) => ClientAction::Send(StateCommand::SetEnvelope(config)),
        Err(e) => ClientAction::Reply(Refusal::Envelope(e)),
    }
}

/// Decides what a client's message leads to.
pub fn handle_client(msg: ClientMessage, catalog: &AssetCatalog) -> (r: ClientAction)
    ensures
        r@ == outcome(msg, *catalog),
{
    match msg {
        ClientMessage::Hello => ClientAction::Nothing,
        ClientMessage::TriggerEmotion { emotion } => emotion_action(
            catalog,
            emotion.as_str(),
            false,
        ),
        ClientMessage::SetDefault { emotion } => emotion_action(catalog, emotion.as_str(), true),
        ClientMessage::ClearOverride => ClientAction::Send(StateCommand::ClearOverride),
        ClientMessage::SetMouthOverride { mouth } => ClientAction::Send(
            StateCommand::SetMouthOverride(mouth),
        ),
        ClientMessage::ClearMouthOverride => ClientAction::Send(StateCommand::ClearMouthOverride),
        ClientMessage::SetMouthConfig { config } => mouth_config_action(config),
        ClientMessage::SetEnvelope { config } => envelope_action(config),
        ClientMessage::SetEyesOverride { eyes } => ClientAction::Send(
            StateCommand::SetEyesOverride(eyes),
        ),
        ClientMessage::ClearEyesOverride => ClientAction::Send(StateCommand::ClearEyesOverride),
    }
}

// ---------------------------------------------------------------------------
// Single calls
// ---------------------------------------------------------------------------
/// The answer to a call: a status, the command to pass on, and the reason of a
/// refusal.
#[derive(Debug)]
pub struct Answer {
    pub status: u16,
    pub send: Option<StateCommand>,
    pub refusal: Option<Refusal>,
}

impl Answer {
    /// The answer for an outcome; a refusal has the status given.
    pub open spec fn gives(self, o: Outcome, refused: u16) -> bool {
        match o {
            Outcome::Do(order) => {
                &&& self.status == NO_CONTENT
                &&& self.refusal is None
                &&& self.send matches Some(cmd) && order_of(cmd) == order
            },
            Outcome::Refuse(why) => {
                &&& self.status == refused
                &&& self.send is None
                &&& self.refusal matches Some(given) && given@ == why
            },
            Outcome::Nothing => {
                &&& self.status == NO_CONTENT
                &&& self.send is None
                &&& self.refusal is None
            },
        }
    }
}

fn answer(action: ClientAction, refused: u16) -> (r: Answer)
    ensures
        r.gives(action@, refused),
{
    match action {
        ClientAction::Send(cmd) => Answer { status: NO_CONTENT, send: Some(cmd), refusal: None },
        ClientAction::Reply(why) => Answer { status: refused, send: None, refusal: Some(why) },
        ClientAction::Nothing => Answer { status: NO_CONTENT, send: None, refusal: None },
    }
}

/// Sets the mouth configuration, if it is valid.
pub fn api_set_mouth_config(config: MouthConfig) -> (r: Answer)
    ensures
        r.gives(mouth_config_outcome(config), BAD_REQUEST),
{
    answer(mouth_config_action(config), BAD_REQUEST)
}

/// Sets the envelope, if it is valid.
pub fn api_set_envelope(config: EnvelopeConfig) -> (r: Answer)
    ensures
        r.gives(envelope_outcome(config), BAD_REQUEST),
{
    answer(envelope_action(config), BAD_REQUEST)
}

/// Triggers an emotion, if the catalog knows it.
pub fn api_trigger_emotion(catalog: &AssetCatalog, name: &str) -> (r: Answer)
    ensures
        r.gives(emotion_outcome(*catalog, name@, false), NOT_FOUND),
{
    answer(emotion_action(catalog, name, false), NOT_FOUND)
}

/// Drops the emotion override.
pub fn api_clear() -> (r: Answer)
    ensures
        r.gives(Outcome::Do(Order::Clear), BAD_REQUEST),
{
    answer(ClientAction::Send(StateCommand::ClearOverride), BAD_REQUEST)
}

/// Changes the resting emotion, if the catalog knows the new one.
pub fn api_set_default(catalog: &AssetCatalog, name: &str) -> (r: Answer)
    ensures
        r.gives(emotion_outcome(*catalog, name@, true), NOT_FOUND),
{
    answer(emotion_action(catalog, name, true), NOT_FOUND)
}

/// What a request to force a mouth leads to.
pub open spec fn mouth_outcome(raw: Seq<char>) -> Outcome {
    match MouthState::named(raw) {
        Some(m) => Outcome::Do(Order::Mouth(m)),
        None => Outcome::Refuse(
            RefusalModel::Text(
                "invalid mouth: "@ + raw + " (expected closed|partial|medium|open)"@,
            ),
        ),
    }
}

/// Forces a mouth level, if there is one of that name.
pub fn api_set_mouth(mouth: &str) -> (r: Answer)
    ensures
        r.gives(mouth_outcome(mouth@), BAD_REQUEST),
{
    let action = match MouthState::from_str_ci(mouth) {
        Some(m) => ClientAction::Send(StateCommand::SetMouthOverride(m)),
        None => ClientAction::Reply(
            Refusal::Text(
                concat3("invalid mouth: ", mouth, " (expected closed|partial|medium|open)"),
            ),
        ),
    };
    answer(action, BAD_REQUEST)
}

/// Releases a forced mouth.
pub fn api_clear_mouth() -> (r: Answer)
    ensures
        r.gives(Outcome::Do(Order::ClearMouth), BAD_REQUEST),
{
    answer(ClientAction::Send(StateCommand::ClearMouthOverride), BAD_REQUEST)
}

/// What a request to force the eyes leads to.
pub open spec fn eyes_outcome(raw: Seq<char>) -> Outcome {
    match EyeState::named(raw) {
        Some(e) => Outcome::Do(Order::Eyes(e)),
        None => Outcome::Refuse(
            RefusalModel::Text("invalid eyes: "@ + raw + " (expected open|closed)"@),
        ),
    }
}

/// Forces an eye state, if there is one of that name.
pub fn api_set_eyes(eyes: &str) -> (r: Answer)
    ensures
        r.gives(eyes_outcome(eyes@), BAD_REQUEST),
{
    let action = match EyeState::from_str_ci(eyes) {
        Some(e) => ClientAction::Send(StateCommand::SetEyesOverride(e)),
        None => ClientAction::Reply(
            Refusal::Text(concat3("invalid eyes: ", eyes, " (expected open|closed)")),
        ),
    };
    answer(action, BAD_REQUEST)
}

/// Releases forced eyes.
pub fn api_clear_eyes() -> (r: Answer)
    ensures
        r.gives(Outcome::Do(Order::ClearEyes), BAD_REQUEST),
{
    answer(ClientAction::Send(StateCommand::ClearEyesOverride), BAD_REQUEST)
}

// ---------------------------------------------------------------------------
// What observers have been told
// ---------------------------------------------------------------------------
/// The latest of what was broadcast.
#[derive(Debug)]
pub struct Record {
    pub snapshot: Option<AvatarSnapshot>,
    pub mouth_config: MouthConfig,
    pub envelope: EnvelopeConfig,
}

/// The latest of what was broadcast, as it is seen from outside.
pub struct RecordModel {
    pub snapshot: Option<AvatarModel>,
    pub mouth_config: MouthConfig,
    pub envelope: EnvelopeConfig,
}

impl View for Record {
    type V = RecordModel;

    open spec fn view(&self) -> RecordModel {
        RecordModel {
            snapshot: match self.snapshot {
                Some(s) => Some(s@),
                None => None,
            },
            mouth_config: self.mouth_config,
            envelope: self.envelope,
        }
    }
}

impl RecordModel {
    /// The record after a broadcast: each kind of message replaces its part.
    pub open spec fn after(self, msg: MessageModel) -> RecordModel {
        match msg {
            MessageModel::State(a) => RecordModel { snapshot: Some(a), ..self },
            MessageModel::MouthConfig(c) => RecordModel { mouth_config: c, ..self },
            MessageModel::Envelope(c) => RecordModel { envelope: c, ..self },
            _ => self,
        }
    }

    /// The resting emotion: the recorded one, else the configured one.
    pub open spec fn resting(self, configured: Seq<char>) -> Seq<char> {
        match self.snapshot {
            Some(s) => s.default_emotion,
            None => configured,
        }
    }

    /// The state to report: the recorded one, else the avatar at rest.
    pub open spec fn reported(self, catalog: AssetCatalog, configured: Seq<char>) -> AvatarModel {
        match self.snapshot {
            Some(s) => s,
            None => AvatarModel {
                emotion: configured,
                mouth: MouthState::Closed,
                eyes: EyeState::Open,
                volume: Binary32 { bits: 0 },
                overridden: false,
                mouth_overridden: false,
                eyes_overridden: false,
                eyes_frame: state::url_or_empty(
                    catalog.eyes_url(state::named_emotion(configured), EyeState::Open),
                ),
                mouth_frame: state::url_or_empty(catalog.mouth_url(MouthState::Closed)),
                default_emotion: configured,
            },
        }
    }
}

impl Record {
    /// Keeps what a broadcast says.
    pub fn record(&mut self, msg: ServerMessage)
        ensures
            final(self)@ == old(self)@.after(msg@),
    {
        match msg {
            ServerMessage::StateUpdate {
                emotion,
                mouth,
                eyes,
                volume,
                overridden,
                mouth_overridden,
                eyes_overridden,
                eyes_frame,
                mouth_frame,
                default_emotion,
            } => {
                self.snapshot = Some(
                    AvatarSnapshot {
                        emotion,
                        mouth,
                        eyes,
                        volume,
                        overridden,
                        mouth_overridden,
                        eyes_overridden,
                        eyes_frame,
                        mouth_frame,
                        default_emotion,
                    },
                );
            },
            ServerMessage::MouthConfigUpdate { config } => {
                self.mouth_config = config;
            },
            ServerMessage::EnvelopeUpdate { config } => {
                self.envelope = config;
            },
            _ => {},
        }
    }

    /// The resting emotion: the recorded one, which reflects changes at run
    /// time, else the configured one.
    pub fn default_or_snapshot(&self, configured: &str) -> (r: String)
        ensures
            r@ == self@.resting(configured@),
    {
        match &self.snapshot {
            Some(s) => s.default_emotion.clone(),
            None => configured.to_owned(),
        }
    }

    /// The state to report: the recorded one, or the avatar at rest where
    /// nothing was broadcast yet.
    pub fn api_state(&self, catalog: &AssetCatalog, configured: &str) -> (r: AvatarSnapshot)
        ensures
            r@ == self@.reported(*catalog, configured@),
    {
        match &self.snapshot {
            Some(s) => s.clone(),
            None => {
                let emotion = if configured.is_empty() {
                    None
                } else {
                    Some(configured)
                };
                let eyes_frame = match catalog.eyes_frame(emotion, EyeState::Open) {
                    Some(s) => s,
                    None => String::new(),
                };
                let mouth_frame = match catalog.mouth_frame(MouthState::Closed) {
                    Some(s) => s,
                    None => String::new(),
                };
                proof {
                    reveal_strlit("");
                    assert(""@ =~= Seq::<char>::empty());
                }
                AvatarSnapshot {
                    emotion: configured.to_owned(),
                    mouth: MouthState::Closed,
                    eyes: EyeState::Open,
                    volume: Binary32::from_bits(0),
                    overridden: false,
                    mouth_overridden: false,
                    eyes_overridden: false,
                    eyes_frame,
                    mouth_frame,
                    default_emotion: configured.to_owned(),
                }
            },
        }
    }

    /// The message that brings a client up to date after it missed some: the
    /// recorded state, if there is one.
    pub fn resync(&self) -> (r: Option<ServerMessage>)
        ensures
            match r {
                Some(m) => self@.snapshot matches Some(a) && m@ == MessageModel::State(a),
                None => self@.snapshot is None,
            },
    {
        match &self.snapshot {
            Some(s) => Some(
                ServerMessage::StateUpdate {
                    emotion: s.emotion.clone(),
                    mouth: s.mouth,
                    eyes: s.eyes,
                    volume: s.volume,
                    overridden: s.overridden,
                    mouth_overridden: s.mouth_overridden,
                    eyes_overridden: s.eyes_overridden,
                    eyes_frame: s.eyes_frame.clone(),
                    mouth_frame: s.mouth_frame.clone(),
                    default_emotion: s.default_emotion.clone(),
                },
            ),
            None => None,
        }
    }

    /// The message that greets a new client.
    pub fn welcome(
        &self,
        catalog: &AssetCatalog,
        configured: &str,
        latency: &str,
        frame_width: u32,
        frame_height: u32,
    ) -> (r: ServerMessage)
        ensures
            r@ matches MessageModel::Welcome {
                catalog: c,
                default_emotion,
                mouth_config,
                envelope,
                latency: l,
                frame_width: w,
                frame_height: h,
            } && {
                &&& c.same_layers(catalog.0)
                &&& default_emotion == self@.resting(configured@)
                &&& mouth_config == self.mouth_config
                &&& envelope == self.envelope
                &&& l == latency@
                &&& w == frame_width
                &&& h == frame_height
            },
    {
        ServerMessage::Welcome {
            catalog: catalog.catalog().clone(),
            default_emotion: self.default_or_snapshot(configured),
            mouth_config: self.mouth_config,
            envelope: self.envelope,
            latency: latency.to_owned(),
            frame_width,
            frame_height,
        }
    }
}

// ---------------------------------------------------------------------------
// Sockets
// ---------------------------------------------------------------------------
/// What happened on a socket.
#[derive(Debug)]
pub enum WsEvent {
    /// A text came in.
    Text(String),
    /// Bytes came in.
    Binary(Vec<u8>),
    /// A ping came in.
    Ping(Vec<u8>),
    /// The client closed the socket, or it failed.
    Gone,
    /// Something else came in.
    Other,
    /// A broadcast is to go out.
    Outgoing(ServerMessage),
    /// Broadcasts were missed.
    Lagged,
    /// There will be no more broadcasts.
    Finished,
}

/// What to do about it.
#[derive(Debug)]
pub enum WsAction {
    /// Treat the text as a client's message.
    Client(String),
    /// Answer the ping.
    Pong(Vec<u8>),
    /// Send the message.
    Push(ServerMessage),
    /// Let go of the socket.
    Stop,
    /// Go on.
    Nothing,
}

/// The action fits the event: texts, and bytes that are UTF-8, are messages of
/// the client; a client that missed broadcasts gets the recorded state.
pub open spec fn action_fits(e: WsEvent, record: RecordModel, a: WsAction) -> bool {
    match e {
        WsEvent::Text(s) => a == WsAction::Client(s),
        WsEvent::Binary(b) => if utf8::valid_utf8(b@) {
            a matches WsAction::Client(s) && s@ == utf8::decode_utf8(b@)
        } else {
            a is Nothing
        },
        WsEvent::Ping(p) => a == WsAction::Pong(p),
        WsEvent::Gone => a is Stop,
        WsEvent::Other => a is Nothing,
        WsEvent::Outgoing(m) => a == WsAction::Push(m),
        WsEvent::Lagged => match record.snapshot {
            Some(s) => a matches WsAction::Push(m) && m@ == MessageModel::State(s),
            None => a is Nothing,
        },
        WsEvent::Finished => a is Stop,
    }
}

/// Decides what to do about what happened on a socket.
pub fn ws_step(event: WsEvent, record: &Record) -> (r: WsAction)
    ensures
        action_fits(event, record@, r),
{
    match event {
        WsEvent::Text(s) => WsAction::Client(s),
        WsEvent::Binary(b) => match utf8_text(b) {
            Some(s) => WsAction::Client(s),
            None => WsAction::Nothing,
        },
        WsEvent::Ping(p) => WsAction::Pong(p),
        WsEvent::Gone => WsAction::Stop,
        WsEvent::Other => WsAction::Nothing,
        WsEvent::Outgoing(m) => WsAction::Push(m),
        WsEvent::Lagged => match record.resync() {
            Some(m) => WsAction::Push(m),
            None => WsAction::Nothing,
        },
        WsEvent::Finished => WsAction::Stop,
    }
}

/// The part of an origin after the scheme.
pub open spec fn after_scheme(origin: Seq<char>) -> Seq<char> {
    match text::find_from(origin, "://"@, 0) {
        Some(k) => {
            let rest = origin.skip(k + 3);
            match text::find_from(rest, "://"@, 0) {
                Some(j) => rest.take(j),
                None => rest,
            }
        },
        None => origin,
    }
}

/// An authority without its port: what stands before the last colon. In an
/// authority that begins with a bracket only a colon after the closing bracket
/// counts, as the address in the brackets has colons of its own.
pub open spec fn without_port(s: Seq<char>) -> Seq<char> {
    match text::rfind(s, ':') {
        Some(k) => if s[0] == '[' && !(text::rfind(s, ']') matches Some(j) && j < k) {
            s
        } else {
            s.take(k)
        },
        None => s,
    }
}

/// The host of an origin.
pub open spec fn origin_host(origin: Seq<char>) -> Seq<char> {
    without_port(text::before_first(after_scheme(origin), '/'))
}

/// The first two of the four octets of an address in dotted decimal.
pub open spec fn leading_octets(host: Seq<char>) -> Option<(u8, u8)> {
    if let Some(r1) = text::after_first(host, '.') {
        if let Some(r2) = text::after_first(r1, '.') {
            if let Some(r3) = text::after_first(r2, '.') {
                match (
                    text::octet_of(text::before_first(host, '.')),
                    text::octet_of(text::before_first(r1, '.')),
                    text::octet_of(text::before_first(r2, '.')),
                    text::octet_of(r3),
                ) {
                    (Some(a), Some(b), Some(_), Some(_)) => Some((a, b)),
                    _ => None,
                }
            } else {
                None
            }
        } else {
            None
        }
    } else {
        None
    }
}

/// An address that begins with these octets is a loopback address or lies in
/// a private network.
pub open spec fn near(a: u8, b: u8) -> bool {
    a == 127 || a == 10 || (a == 172 && 16 <= b <= 31) || (a == 192 && b == 168)
}

/// The host goes by one of the names of this machine.
pub open spec fn names_this_machine(host: Seq<char>) -> bool {
    host == "localhost"@ || host == "::1"@ || host == "[::1]"@
}

/// The host is this machine or lies in a private network.
pub open spec fn local_host(host: Seq<char>) -> bool {
    names_this_machine(host) || match leading_octets(host) {
        Some((a, b)) => near(a, b),
        None => false,
    }
}

/// The first two octets of an address in dotted decimal.
fn parse_leading_octets(host: &str) -> (r: Option<(u8, u8)>)
    ensures
        r == leading_octets(host@),
{
    let (p0, t0) = split_first(host, '.');
    let r1 = match t0 {
        Some(r) => r,
        None => return None,
    };
    let (p1, t1) = split_first(r1.as_str(), '.');
    let r2 = match t1 {
        Some(r) => r,
        None => return None,
    };
    let (p2, t2) = split_first(r2.as_str(), '.');
    let r3 = match t2 {
        Some(r) => r,
        None => return None,
    };
    match (
        parse_octet(p0.as_str()),
        parse_octet(p1.as_str()),
        parse_octet(p2.as_str()),
        parse_octet(r3.as_str()),
    ) {
        (Some(a), Some(b), Some(_), Some(_)) => Some((a, b)),
        _ => None,
    }
}

/// True if the host is this machine or lies in a private network.
pub fn is_local_host(host: &str) -> (r: bool)
    ensures
        r == local_host(host@),
{
    if same_text(host, "localhost") || same_text(host, "::1") || same_text(host, "[::1]") {
        return true;
    }
    match parse_leading_octets(host) {
        Some((a, b)) => a == 127 || a == 10 || (a == 172 && 16 <= b && b <= 31) || (a == 192 && b
            == 168),
        None => false,
    }
}

/// True if an origin's host is this machine or lies in a private network.
pub fn origin_local(origin: &str) -> (r: bool)
    ensures
        r == local_host(origin_host(origin@)),
{
    let chars = chars_of(origin);
    let mark = chars_of("://");
    proof {
        reveal_strlit("://");
        assert("://"@.len() == 3);
        text::find_from_is_least(origin@, "://"@, 0);
    }
    let tail = match find_chars(&chars, &mark, 0) {
        Some(k) => {
            let rest = string_of(&chars, k + 3, chars.len());
            assert(rest@ =~= origin@.skip(k + 3));
            let more = chars_of(rest.as_str());
            match find_chars(&more, &mark, 0) {
                Some(j) => {
                    let t = string_of(&more, 0, j);
                    assert(t@ =~= rest@.take(j as int));
                    t
                },
                None => rest,
            }
        },
        None => origin.to_owned(),
    };
    assert(tail@ == after_scheme(origin@));
    let authority = split_first(tail.as_str(), '/').0;
    let a = chars_of(authority.as_str());
    let host = match find_last(&a, ':') {
        Some(k) => {
            let inside = a[0] == '[' && match find_last(&a, ']') {
                Some(j) => !(j < k),
                None => true,
            };
            if inside {
                authority
            } else {
                let h = string_of(&a, 0, k);
                assert(h@ =~= authority@.take(k as int));
                h
            }
        },
        None => authority,
    };
    is_local_host(host.as_str())
}

/// Whether a socket may be opened.
#[derive(Debug)]
pub enum WsEntry {
    Open,
    /// No, for the reason given, with the status to answer.
    Closed { status: u16, reason: String },
}

/// Decides whether a socket may be opened. Clients that are no browsers send
/// no origin and may connect; browsers only from this machine or a private
/// network; and only so many at once.
pub fn ws_entry(origin: Option<&str>, free: bool) -> (r: WsEntry)
    ensures
        ({
            let foreign = text::opt_str(origin) matches Some(o) && !local_host(origin_host(o));
            match r {
                WsEntry::Open => !foreign && free,
                WsEntry::Closed { status, reason } => if foreign {
                    &&& status == FORBIDDEN
                    &&& reason@ == "origin not allowed: "@ + text::opt_str(origin)->0
                } else {
                    &&& !free
                    &&& status == SERVICE_UNAVAILABLE
                    &&& reason@ == "too many websocket clients"@
                },
            }
        }),
{
    if let Some(o) = origin {
        if !origin_local(o) {
            return WsEntry::Closed {
                status: FORBIDDEN,
                reason: concat2("origin not allowed: ", o),
            };
        }
    }
    if free {
        WsEntry::Open
    } else {
        WsEntry::Closed {
            status: SERVICE_UNAVAILABLE,
            reason: "too many websocket clients".to_owned(),
        }
    }
}

// ---------------------------------------------------------------------------
// Embedded files
// ---------------------------------------------------------------------------
/// The media type that `mime_guess` finds for a path.
pub uninterp spec fn media_type(path: Seq<char>) -> Seq<char>;

/// `mime_guess::from_path` with its first guess, or the type of plain bytes
/// where it has none: a table look-up by the path's extension, so the same
/// path always gives the same type.
#[verifier::external_body]
fn guess_media_type(path: &str) -> (r: String)
    ensures
        r@ == media_type(path@),
{
    mime_guess::from_path(path).first_or_octet_stream().essence_str().to_owned()
}

/// A file name without any way out of its directory.
pub open spec fn flat_name(file: Seq<char>) -> bool {
    !text::occurs(file, ".."@) && !text::occurs(file, "/"@)
}

/// True if the file name has no way out of its directory.
pub fn is_flat_name(file: &str) -> (r: bool)
    ensures
        r == flat_name(file@),
{
    !contains(file, "..") && !contains(file, "/")
}

/// A file to serve: a status and, where it is there, its type and its bytes.
#[derive(Debug)]
pub struct Served {
    pub status: u16,
    pub file: Option<(String, Vec<u8>)>,
}

/// Answers a request for an embedded file, of which `asset` was found. The
/// media type is that of the path.
pub fn serve_embedded(path: &str, asset: Option<Vec<u8>>) -> (r: Served)
    ensures
        match asset {
            Some(data) => {
                &&& r.status == OK
                &&& r.file matches Some(f) && f.0@ == media_type(path@) && f.1 == data
            },
            None => r.status == NOT_FOUND && r.file is None,
        },
{
    match asset {
        Some(data) => serve_as(guess_media_type(path), data),
        None => Served { status: NOT_FOUND, file: None },
    }
}

/// A file of the given type.
pub fn serve_as(kind: String, data: Vec<u8>) -> (r: Served)
    ensures
        r.status == OK,
        r.file == Some((kind, data)),
{
    Served { status: OK, file: Some((kind, data)) }
}

/// Answers a request for a file by name: names with a way out of the directory
/// are not found, whatever is there.
pub fn embedded_file(file: &str, asset: Option<Vec<u8>>) -> (r: Served)
    ensures
        flat_name(file@) && asset is Some ==> {
            &&& r.status == OK
            &&& r.file matches Some(f) && f.0@ == media_type(file@) && f.1 == asset->0
        },
        !(flat_name(file@) && asset is Some) ==> r.status == NOT_FOUND && r.file is None,
{
    if !is_flat_name(file) {
        return Served { status: NOT_FOUND, file: None };
    }
    serve_embedded(file, asset)
}

// ---------------------------------------------------------------------------
// Laws
// ---------------------------------------------------------------------------
/// What was broadcast last is what is reported, and what a client that missed
/// broadcasts is sent.
pub proof fn record_reports_the_latest(
    r: RecordModel,
    a: AvatarModel,
    catalog: AssetCatalog,
    configured: Seq<char>,
)
    ensures
        r.after(MessageModel::State(a)).reported(catalog, configured) == a,
        r.after(MessageModel::State(a)).resting(configured) == a.default_emotion,
{
}

/// Messages of one kind leave the record of the others alone.
pub proof fn record_keeps_the_rest(r: RecordModel, c: MouthConfig, e: EnvelopeConfig, a: AvatarModel)
    ensures
        r.after(MessageModel::MouthConfig(c)).snapshot == r.snapshot,
        r.after(MessageModel::Envelope(e)).snapshot == r.snapshot,
        r.after(MessageModel::State(a)).mouth_config == r.mouth_config,
        r.after(MessageModel::State(a)).envelope == r.envelope,
        r.after(MessageModel::MouthConfig(c)).envelope == r.envelope,
        r.after(MessageModel::Envelope(e)).mouth_config == r.mouth_config,
{
}

/// A refused request gives no command, and one that gives a command is not
/// refused.
pub proof fn refusals_send_nothing(a: Answer, o: Outcome, refused: u16)
    requires
        a.gives(o, refused),
        refused != NO_CONTENT,
    ensures
        a.refusal is Some ==> a.send is None && a.status == refused,
        a.send is Some ==> a.refusal is None && a.status == NO_CONTENT,
{
}

/// No request makes the avatar show an emotion that the catalog lacks: a name
/// that is passed on is a key of the catalog, in lower case.
pub proof fn only_known_emotions_pass(msg: ClientMessage, catalog: AssetCatalog, key: Seq<char>)
    requires
        outcome(msg, catalog) == Outcome::Do(Order::Trigger(key)) || outcome(msg, catalog)
            == Outcome::Do(Order::Default(key)),
    ensures
        catalog.0.emotions@.dom().contains(key),
        text::lowered(key) == key,
{
    match msg {
        ClientMessage::TriggerEmotion { emotion } => {
            text::lowered_idempotent(emotion@);
        },
        ClientMessage::SetDefault { emotion } => {
            text::lowered_idempotent(emotion@);
        },
        _ => {},
    }
}

/// No request sets a mouth configuration or an envelope that is not valid.
pub proof fn only_valid_settings_pass(msg: ClientMessage, catalog: AssetCatalog)
    ensures
        outcome(msg, catalog) matches Outcome::Do(Order::MouthConfig(c)) ==> c.verdict() is Ok,
        outcome(msg, catalog) matches Outcome::Do(Order::Envelope(c)) ==> c.verdict() is Ok,
{
}

/// The character is neither a digit nor a dot.
spec fn is_odd(c: char) -> bool {
    !text::is_digit(c) && c != '.'
}

proof fn odd_char_moves_on(s: Seq<char>, i: int) -> (j: int)
    requires
        0 <= i < s.len(),
        is_odd(s[i]),
        text::after_first(s, '.') is Some,
        text::octet_of(text::before_first(s, '.')) is Some,
    ensures
        0 <= j < text::after_first(s, '.')->0.len(),
        text::after_first(s, '.')->0[j] == s[i],
{
    let k = text::find_from(s, seq!['.'], 0)->0;
    text::find_from_is_least(s, seq!['.'], 0);
    assert(s.subrange(k, k + 1)[0] == '.');
    if i < k {
        assert(text::before_first(s, '.')[i] == s[i]);
    }
    i - k - 1
}

/// A host with any character besides digits and dots lies in no private
/// network: apart from the names of this machine, no name is local, however it
/// begins.
pub proof fn names_are_not_local(host: Seq<char>, i: int)
    requires
        0 <= i < host.len(),
        !text::is_digit(host[i]),
        host[i] != '.',
        !names_this_machine(host),
    ensures
        !local_host(host),
{
    if leading_octets(host) is Some {
        let r1 = text::after_first(host, '.')->0;
        let r2 = text::after_first(r1, '.')->0;
        let j = odd_char_moves_on(host, i);
        let k = odd_char_moves_on(r1, j);
        let l = odd_char_moves_on(r2, k);
        assert(is_odd(text::after_first(r2, '.')->0[l]));
    }
}

/// An address in brackets is its own host, with a port or without.
pub proof fn bracketed_host_keeps_its_colons(inner: Seq<char>, port: Seq<char>)
    requires
        forall|i: int| 0 <= i < inner.len() ==> #[trigger] inner[i] != ']',
        forall|i: int| 0 <= i < port.len() ==> #[trigger] port[i] != ':' && port[i] != ']',
    ensures
        ({
            let host = seq!['['] + inner + seq![']'];
            &&& without_port(host) == host
            &&& without_port(host + seq![':'] + port) == host
        }),
{
    let host = seq!['['] + inner + seq![']'];
    let n = host.len() as int;
    let full = host + seq![':'] + port;
    text::rfind_is_greatest(host, ']', n);
    text::rfind_is_greatest(host, ':', n);
    assert(host[n - 1] == ']' && host[0] == '[');
    text::rfind_is_greatest(full, ']', full.len() as int);
    text::rfind_is_greatest(full, ':', full.len() as int);
    assert(full[n] == ':' && full[n - 1] == ']' && full[0] == '[');
    assert forall|i: int| n < i < full.len() implies full[i] != ':' && full[i] != ']' by {
        assert(full[i] == port[i - n - 1]);
    }
    assert(full.take(n) =~= host);
}

/// A socket and a call for the same emotion are treated alike.
pub proof fn socket_and_call_agree(catalog: AssetCatalog, name: String, a: Answer)
    requires
        a.gives(emotion_outcome(catalog, name@, false), NOT_FOUND),
    ensures
        match outcome(ClientMessage::TriggerEmotion { emotion: name }, catalog) {
            Outcome::Do(order) => a.send matches Some(cmd) && order_of(cmd) == order,
            Outcome::Refuse(why) => a.refusal matches Some(given) && given@ == why,
            Outcome::Nothing => false,
        },
{
}

/// Every message of a client is carried out as it says: an emotion that the
/// catalog knows, in any case, by its key; forced and released parts as given;
/// valid settings as they are. What is not known or not valid is refused with
/// the reason, and a greeting asks for nothing.
pub proof fn client_messages_are_carried_out(msg: ClientMessage, catalog: AssetCatalog)
    ensures
        ({
            let o = outcome(msg, catalog);
            let known = |e: String| catalog.0.emotions@.dom().contains(text::lowered(e@));
            match msg {
                ClientMessage::Hello => o is Nothing,
                ClientMessage::TriggerEmotion { emotion } => if known(emotion) {
                    o == Outcome::Do(Order::Trigger(text::lowered(emotion@)))
                } else {
                    o == Outcome::Refuse(RefusalModel::Text("unknown emotion: "@ + emotion@))
                },
                ClientMessage::SetDefault { emotion } => if known(emotion) {
                    o == Outcome::Do(Order::Default(text::lowered(emotion@)))
                } else {
                    o == Outcome::Refuse(RefusalModel::Text("unknown emotion: "@ + emotion@))
                },
                ClientMessage::ClearOverride => o == Outcome::Do(Order::Clear),
                ClientMessage::SetMouthOverride { mouth } => o == Outcome::Do(Order::Mouth(mouth)),
                ClientMessage::ClearMouthOverride => o == Outcome::Do(Order::ClearMouth),
                ClientMessage::SetMouthConfig { config } => match config.verdict() {
                    Ok(_) => o == Outcome::Do(Order::MouthConfig(config)),
                    Err(e) => o == Outcome::Refuse(RefusalModel::Mouth(e)),
                },
                ClientMessage::SetEnvelope { config } => match config.verdict() {
                    Ok(_) => o == Outcome::Do(Order::Envelope(config)),
                    Err(e) => o == Outcome::Refuse(RefusalModel::Envelope(e)),
                },
                ClientMessage::SetEyesOverride { eyes } => o == Outcome::Do(Order::Eyes(eyes)),
                ClientMessage::ClearEyesOverride => o == Outcome::Do(Order::ClearEyes),
            }
        }),
{
}

/// An order is carried out by the command of its own kind, with what it holds.
pub proof fn orders_are_commands_of_their_kind(cmd: StateCommand)
    ensures
        order_of(cmd) matches Order::Trigger(e) ==> (cmd matches StateCommand::TriggerEmotion(s)
            && s@ == e),
        order_of(cmd) matches Order::Default(e) ==> (cmd matches StateCommand::SetDefault(s) && s@
            == e),
        order_of(cmd) is Clear <==> cmd is ClearOverride,
        order_of(cmd) matches Order::Mouth(m) ==> cmd == StateCommand::SetMouthOverride(m),
        order_of(cmd) is ClearMouth <==> cmd is ClearMouthOverride,
        order_of(cmd) matches Order::MouthConfig(c) ==> cmd == StateCommand::SetMouthConfig(c),
        order_of(cmd) matches Order::Envelope(c) ==> cmd == StateCommand::SetEnvelope(c),
        order_of(cmd) matches Order::Eyes(e) ==> cmd == StateCommand::SetEyesOverride(e),
        order_of(cmd) is ClearEyes <==> cmd is ClearEyesOverride,
{
}

/// A call is answered by its outcome: with 204 and the command, or with the
/// status of the refusal and its reason.
pub proof fn answers_follow_the_outcome(a: Answer, o: Outcome, refused: u16)
    requires
        a.gives(o, refused),
    ensures
        o matches Outcome::Do(order) ==> a.status == 204 && a.refusal is None && (a.send matches Some(
            cmd,
        ) && order_of(cmd) == order),
        o matches Outcome::Refuse(why) ==> a.status == refused && a.send is None
            && (a.refusal matches Some(given) && given@ == why),
        o is Nothing ==> a.status == 204 && a.send is None && a.refusal is None,
{
}

/// A call for a mouth or for eyes is carried out exactly when it gives a name,
/// in any case.
pub proof fn forced_parts_go_by_name(raw: Seq<char>)
    ensures
        text::lowered(raw) == "closed"@ ==> mouth_outcome(raw) == Outcome::Do(
            Order::Mouth(MouthState::Closed),
        ) && eyes_outcome(raw) == Outcome::Do(Order::Eyes(EyeState::Closed)),
        text::lowered(raw) == "partial"@ ==> mouth_outcome(raw) == Outcome::Do(
            Order::Mouth(MouthState::Partial),
        ),
        text::lowered(raw) == "medium"@ ==> mouth_outcome(raw) == Outcome::Do(
            Order::Mouth(MouthState::Medium),
        ),
        text::lowered(raw) == "open"@ ==> mouth_outcome(raw) == Outcome::Do(
            Order::Mouth(MouthState::Open),
        ) && eyes_outcome(raw) == Outcome::Do(Order::Eyes(EyeState::Open)),
        text::lowered(raw) != "closed"@ && text::lowered(raw) != "partial"@ && text::lowered(raw)
            != "medium"@ && text::lowered(raw) != "open"@ ==> mouth_outcome(raw) is Refuse,
        text::lowered(raw) != "closed"@ && text::lowered(raw) != "open"@ ==> eyes_outcome(
            raw,
        ) is Refuse,
{
    crate::protocol::only_level_names_are_levels(raw);
    crate::protocol::only_eye_names_are_eyes(raw);
}

/// Before anything was broadcast the avatar is reported at rest, with its
/// resting emotion and the layers for it; settings are kept as they come in.
pub proof fn unheard_avatar_is_at_rest(
    r: RecordModel,
    catalog: AssetCatalog,
    configured: Seq<char>,
    c: MouthConfig,
    e: EnvelopeConfig,
)
    requires
        r.snapshot is None,
    ensures
        ({
            let a = r.reported(catalog, configured);
            let expression = if configured.len() == 0 {
                None
            } else {
                Some(configured)
            };
            &&& a.emotion == configured && a.default_emotion == configured
            &&& a.mouth == MouthState::Closed && a.eyes == EyeState::Open
            &&& a.volume.bits == 0
            &&& !a.overridden && !a.mouth_overridden && !a.eyes_overridden
            &&& catalog.eyes_url(expression, EyeState::Open) matches Some(u) ==> a.eyes_frame == u
            &&& catalog.mouth_url(MouthState::Closed) matches Some(u) ==> a.mouth_frame == u
        }),
        r.resting(configured) == configured,
        r.after(MessageModel::MouthConfig(c)).mouth_config == c,
        r.after(MessageModel::Envelope(e)).envelope == e,
        forall|why: Seq<char>| #[trigger] r.after(MessageModel::Error(why)) == r,
{
}

/// What a client says reaches the avatar, what is broadcast reaches the
/// client, a ping is answered with its own bytes, and a socket ends only when
/// the client or the broadcasts do.
pub proof fn sockets_pass_things_on(e: WsEvent, record: RecordModel, a: WsAction)
    requires
        action_fits(e, record, a),
    ensures
        e matches WsEvent::Text(s) ==> a == WsAction::Client(s),
        e matches WsEvent::Ping(p) ==> a == WsAction::Pong(p),
        e matches WsEvent::Outgoing(m) ==> a == WsAction::Push(m),
        e matches WsEvent::Binary(b) ==> a is Client == utf8::valid_utf8(b@),
        e is Lagged && record.snapshot is Some ==> a is Push,
        a is Stop <==> e is Gone || e is Finished,
        a is Client ==> e is Text || e is Binary,
        a is Pong ==> e is Ping,
        a is Push ==> e is Outgoing || e is Lagged,
{
}

/// The address with these octets, in dotted decimal.
pub open spec fn dotted(a: u8, b: u8, c: u8, d: u8) -> Seq<char> {
    text::decimal_text(a as nat) + seq!['.'] + (text::decimal_text(b as nat) + seq!['.'] + (
    text::decimal_text(c as nat) + seq!['.'] + text::decimal_text(d as nat)))
}

proof fn numeral_has_no_dot(n: nat)
    ensures
        text::decimal_text(n).len() > 0,
        forall|i: int|
            0 <= i < text::decimal_text(n).len() ==> #[trigger] text::decimal_text(n)[i] != '.',
{
    text::numerals_read_back(n);
    let s = text::decimal_text(n);
    assert forall|i: int| 0 <= i < s.len() implies #[trigger] s[i] != '.' by {
        assert(text::is_digit(s[i]));
    }
}

/// An address is local exactly when it is a loopback address or lies in one of
/// the private networks 10.0.0.0/8, 172.16.0.0/12 and 192.168.0.0/16.
pub proof fn private_addresses_are_local(a: u8, b: u8, c: u8, d: u8)
    ensures
        local_host(dotted(a, b, c, d)) <==> a == 127 || a == 10 || (a == 172 && 16 <= b <= 31) || (a
            == 192 && b == 168),
{
    let (ta, tb) = (text::decimal_text(a as nat), text::decimal_text(b as nat));
    let (tc, td) = (text::decimal_text(c as nat), text::decimal_text(d as nat));
    numeral_has_no_dot(a as nat);
    numeral_has_no_dot(b as nat);
    numeral_has_no_dot(c as nat);
    numeral_has_no_dot(d as nat);
    let r2 = tc + seq!['.'] + td;
    let r1 = tb + seq!['.'] + r2;
    let host = dotted(a, b, c, d);
    assert(host == ta + seq!['.'] + r1);
    text::text_parts_at_the_first(ta, '.', r1);
    text::text_parts_at_the_first(tb, '.', r2);
    text::text_parts_at_the_first(tc, '.', td);
    text::octets_are_numerals(ta, a);
    text::octets_are_numerals(tb, b);
    text::octets_are_numerals(tc, c);
    text::octets_are_numerals(td, d);
    assert(leading_octets(host) == Some((a, b)));
    text::numerals_read_back(a as nat);
    assert(text::is_digit(ta[0]));
    assert(host[0] == ta[0]);
    reveal_strlit("localhost");
    reveal_strlit("::1");
    reveal_strlit("[::1]");
    assert("localhost"@[0] == 'l' && "::1"@[0] == ':' && "[::1]"@[0] == '[');
}

/// This machine is local by each of its names, and any other local host is an
/// address in dotted decimal.
pub proof fn only_names_and_addresses_are_local(host: Seq<char>)
    ensures
        host == "localhost"@ || host == "::1"@ || host == "[::1]"@ ==> local_host(host),
        local_host(host) && host != "localhost"@ && host != "::1"@ && host != "[::1]"@ ==> exists|
            a: u8,
            b: u8,
            c: u8,
            d: u8,
        |
            host == #[trigger] dotted(a, b, c, d),
{
    if local_host(host) && host != "localhost"@ && host != "::1"@ && host != "[::1]"@ {
        let r1 = text::after_first(host, '.')->0;
        let r2 = text::after_first(r1, '.')->0;
        let r3 = text::after_first(r2, '.')->0;
        let (ta, tb) = (text::before_first(host, '.'), text::before_first(r1, '.'));
        let tc = text::before_first(r2, '.');
        let (a, b) = (text::octet_of(ta)->0, text::octet_of(tb)->0);
        let (c, d) = (text::octet_of(tc)->0, text::octet_of(r3)->0);
        split_joins(host);
        split_joins(r1);
        split_joins(r2);
        text::octets_are_numerals(ta, a);
        text::octets_are_numerals(tb, b);
        text::octets_are_numerals(tc, c);
        text::octets_are_numerals(r3, d);
        assert(host == dotted(a, b, c, d));
    }
}

proof fn split_joins(s: Seq<char>)
    requires
        text::after_first(s, '.') is Some,
    ensures
        s == text::before_first(s, '.') + seq!['.'] + text::after_first(s, '.')->0,
{
    let k = text::find_from(s, seq!['.'], 0)->0;
    text::find_from_is_least(s, seq!['.'], 0);
    assert(s.subrange(k, k + 1)[0] == s[k]);
    assert(s =~= s.take(k) + seq!['.'] + s.skip(k + 1));
}

/// The scheme is what stands before the first `://`.
proof fn scheme_goes(scheme: Seq<char>, rest: Seq<char>)
    requires
        forall|i: int| 0 <= i < scheme.len() ==> #[trigger] scheme[i] != ':',
        forall|j: int| !text::occurs_at(rest, "://"@, j),
    ensures
        after_scheme(scheme + "://"@ + rest) == rest,
{
    reveal_strlit("://");
    let s = scheme + "://"@ + rest;
    let n = scheme.len() as int;
    assert(s.subrange(n, n + 3) =~= "://"@);
    assert(text::occurs_at(s, "://"@, n));
    text::find_from_is_least(s, "://"@, 0);
    text::find_from_is_least(rest, "://"@, 0);
    let k = text::find_from(s, "://"@, 0)->0;
    assert(s.subrange(k, k + 3)[0] == s[k]);
    if k < n {
        assert(s[k] == scheme[k]);
    }
    assert(k == n);
    assert(s.skip(n + 3) =~= rest);
}

/// No `://` stands in a text whose only colon has no slash behind it.
proof fn no_scheme_within(s: Seq<char>, n: int)
    requires
        forall|i: int| 0 <= i < s.len() && i != n ==> #[trigger] s[i] != ':',
        0 <= n && n + 1 < s.len() ==> s[n + 1] != '/',
    ensures
        forall|j: int| !text::occurs_at(s, "://"@, j),
{
    reveal_strlit("://");
    assert forall|j: int| !text::occurs_at(s, "://"@, j) by {
        if text::occurs_at(s, "://"@, j) {
            let t = s.subrange(j, j + 3);
            assert(t[0] == s[j] && t[1] == s[j + 1]);
            assert("://"@[0] == ':' && "://"@[1] == '/');
        }
    }
}

proof fn port_goes(host: Seq<char>, port: Seq<char>)
    requires
        forall|i: int| 0 <= i < host.len() ==> #[trigger] host[i] != ':',
        host.len() > 0 ==> host[0] != '[',
        forall|i: int| 0 <= i < port.len() ==> #[trigger] port[i] != ':',
    ensures
        without_port(host) == host,
        without_port(host + seq![':'] + port) == host,
{
    let s = host + seq![':'] + port;
    let n = host.len() as int;
    text::rfind_is_greatest(host, ':', n);
    text::rfind_is_greatest(s, ':', s.len() as int);
    assert(s[n] == ':');
    assert forall|i: int| n < i < s.len() implies s[i] != ':' by {
        assert(s[i] == port[i - n - 1]);
    }
    assert(s.take(n) =~= host);
    if n > 0 {
        assert(s[0] == host[0]);
    }
}

/// The host of an origin is what stands between the scheme and the port or the
/// path.
pub proof fn origin_gives_its_host(
    scheme: Seq<char>,
    host: Seq<char>,
    port: Seq<char>,
    path: Seq<char>,
)
    requires
        forall|i: int| 0 <= i < scheme.len() ==> #[trigger] scheme[i] != ':',
        forall|i: int| 0 <= i < host.len() ==> #[trigger] host[i] != ':' && host[i] != '/',
        host.len() > 0 ==> host[0] != '[',
        port.len() > 0,
        forall|i: int| 0 <= i < port.len() ==> #[trigger] port[i] != ':' && port[i] != '/',
        forall|i: int| 0 <= i < path.len() ==> #[trigger] path[i] != ':',
    ensures
        origin_host(scheme + "://"@ + host) == host,
        origin_host(scheme + "://"@ + (host + seq!['/'] + path)) == host,
        origin_host(scheme + "://"@ + (host + seq![':'] + port)) == host,
        origin_host(scheme + "://"@ + ((host + seq![':'] + port) + seq!['/'] + path)) == host,
{
    let full = host + seq![':'] + port;
    let n = host.len() as int;
    let near = host + seq!['/'] + path;
    let far = full + seq!['/'] + path;
    assert forall|i: int| 0 <= i < near.len() implies #[trigger] near[i] != ':' by {
        if i < n {
            assert(near[i] == host[i]);
        } else if i > n {
            assert(near[i] == path[i - n - 1]);
        }
    }
    assert forall|i: int| 0 <= i < full.len() implies #[trigger] full[i] != '/' && (i != n
        ==> full[i] != ':') by {
        if i < n {
            assert(full[i] == host[i]);
        } else if i > n {
            assert(full[i] == port[i - n - 1]);
        }
    }
    assert forall|i: int| 0 <= i < far.len() && i != n implies #[trigger] far[i] != ':' by {
        if i < full.len() {
            assert(far[i] == full[i]);
        } else if i > full.len() {
            assert(far[i] == path[i - full.len() - 1]);
        }
    }
    assert(full[n + 1] == port[0]);
    assert(far[n + 1] == full[n + 1]);
    no_scheme_within(host, -1);
    no_scheme_within(near, -1);
    no_scheme_within(full, n);
    no_scheme_within(far, n);
    scheme_goes(scheme, host);
    scheme_goes(scheme, near);
    scheme_goes(scheme, full);
    scheme_goes(scheme, far);
    text::text_parts_at_the_first(host, '/', path);
    text::text_parts_at_the_first(full, '/', path);
    port_goes(host, port);
}

/// A file name is served only if it has no slash and no two dots in a row.
pub proof fn names_stay_in_their_directory(file: Seq<char>)
    ensures
        flat_name(file) <==> (forall|i: int| 0 <= i < file.len() ==> #[trigger] file[i] != '/') && (
        forall|i: int|
            0 <= i && i + 1 < file.len() ==> !(#[trigger] file[i] == '.' && file[i + 1] == '.')),
{
    reveal_strlit("..");
    reveal_strlit("/");
    assert forall|i: int| #[trigger] text::occurs_at(file, "/"@, i) <==> 0 <= i < file.len()
        && file[i] == '/' by {
        if 0 <= i < file.len() {
            assert(file.subrange(i, i + 1)[0] == file[i]);
            if file[i] == '/' {
                assert(file.subrange(i, i + 1) =~= "/"@);
            }
        }
    }
    assert forall|i: int| #[trigger] text::occurs_at(file, ".."@, i) <==> 0 <= i && i + 1
        < file.len() && file[i] == '.' && file[i + 1] == '.' by {
        if 0 <= i && i + 1 < file.len() {
            let t = file.subrange(i, i + 2);
            assert(t[0] == file[i] && t[1] == file[i + 1]);
            if file[i] == '.' && file[i + 1] == '.' {
                assert(t =~= ".."@);
            }
        }
    }
    if exists|i: int| 0 <= i < file.len() && #[trigger] file[i] == '/' {
        let i = choose|i: int| 0 <= i < file.len() && #[trigger] file[i] == '/';
        assert(text::occurs_at(file, "/"@, i));
    }
    if exists|i: int|
        0 <= i && i + 1 < file.len() && #[trigger] file[i] == '.' && file[i + 1] == '.' {
        let i = choose|i: int|
            0 <= i && i + 1 < file.len() && #[trigger] file[i] == '.' && file[i + 1] == '.';
        assert(text::occurs_at(file, ".."@, i));
    }
}

/// Calls for emotions and settings are treated as the messages for them are.
pub proof fn calls_are_treated_as_messages(
    catalog: AssetCatalog,
    emotion: String,
    config: MouthConfig,
    envelope: EnvelopeConfig,
)
    ensures
        emotion_outcome(catalog, emotion@, false) == outcome(
            ClientMessage::TriggerEmotion { emotion },
            catalog,
        ),
        emotion_outcome(catalog, emotion@, true) == outcome(
            ClientMessage::SetDefault { emotion },
            catalog,
        ),
        mouth_config_outcome(config) == outcome(ClientMessage::SetMouthConfig { config }, catalog),
        envelope_outcome(envelope) == outcome(
            ClientMessage::SetEnvelope { config: envelope },
            catalog,
        ),
{
}

/// The statuses of answers, and the limits of a socket: messages and frames of
/// a quarter of a mebibyte, sixteen clients.
pub proof fn statuses_and_limits()
    ensures
        OK == 200,
        NO_CONTENT == 204,
        BAD_REQUEST == 400,
        FORBIDDEN == 403,
        NOT_FOUND == 404,
        SERVICE_UNAVAILABLE == 503,
        MAX_WS_MESSAGE_SIZE == 262_144,
        MAX_WS_FRAME_SIZE == 262_144,
        MAX_WS_CLIENTS == 16,
{
}

/// An origin without a scheme is a host, with a port or a path behind it; of
/// one with two schemes only what stands between them counts.
pub proof fn origin_without_a_scheme_is_a_host(
    scheme: Seq<char>,
    host: Seq<char>,
    port: Seq<char>,
    rest: Seq<char>,
)
    requires
        forall|i: int| 0 <= i < scheme.len() ==> #[trigger] scheme[i] != ':',
        forall|i: int| 0 <= i < host.len() ==> #[trigger] host[i] != ':' && host[i] != '/',
        host.len() > 0 ==> host[0] != '[',
        port.len() > 0,
        forall|i: int| 0 <= i < port.len() ==> #[trigger] port[i] != ':' && port[i] != '/',
    ensures
        origin_host(host) == host,
        origin_host(host + seq![':'] + port) == host,
        origin_host(scheme + "://"@ + (host + "://"@ + rest)) == host,
{
    reveal_strlit("://");
    let full = host + seq![':'] + port;
    let n = host.len() as int;
    assert forall|i: int| 0 <= i < full.len() implies #[trigger] full[i] != '/' && (i != n
        ==> full[i] != ':') by {
        if i < n {
            assert(full[i] == host[i]);
        } else if i > n {
            assert(full[i] == port[i - n - 1]);
        }
    }
    assert(full[n + 1] == port[0]);
    no_scheme_within(host, -1);
    no_scheme_within(full, n);
    text::find_from_is_least(host, "://"@, 0);
    text::find_from_is_least(full, "://"@, 0);
    text::text_parts_at_the_first(host, '/', port);
    text::text_parts_at_the_first(full, '/', port);
    port_goes(host, port);
    let two = host + "://"@ + rest;
    mark_is_found(scheme, two);
    mark_is_found(host, rest);
    assert(two.take(n) =~= host);
}

proof fn mark_is_found(a: Seq<char>, b: Seq<char>)
    requires
        forall|i: int| 0 <= i < a.len() ==> #[trigger] a[i] != ':',
    ensures
        text::find_from(a + "://"@ + b, "://"@, 0) == Some(a.len() as int),
        (a + "://"@ + b).skip(a.len() as int + 3) == b,
{
    reveal_strlit("://");
    let mark = "://"@;
    let s = a + mark + b;
    let n = a.len() as int;
    assert(mark.len() == 3 && mark[0] == ':');
    assert(s.skip(n + 3) =~= b);
    assert(s.subrange(n, n + 3) =~= mark);
    assert(text::occurs_at(s, mark, n));
    assert forall|j: int| 0 <= j < n implies !text::occurs_at(s, mark, j) by {
        assert(s[j] == a[j]);
        if text::occurs_at(s, mark, j) {
            assert(s.subrange(j, j + 3)[0] == s[j]);
        }
    }
    first_is_found(s, mark, n);
}

proof fn first_is_found(s: Seq<char>, mark: Seq<char>, n: int)
    requires
        0 <= n,
        text::occurs_at(s, mark, n),
        forall|j: int| 0 <= j < n ==> !text::occurs_at(s, mark, j),
    ensures
        text::find_from(s, mark, 0) == Some(n),
{
    text::find_from_is_least(s, mark, 0);
}

/// The text of a refusal is its reason, and mentions the numbers that it is
/// about.
pub proof fn refusals_give_their_reason(r: Refusal, shown: Seq<Seq<char>>)
    requires
        shown.len() == r.mentioned().len(),
    ensures
        r matches Refusal::Text(s) ==> r.text(shown) == s@ && r.mentioned().len() == 0,
        r matches Refusal::Mouth(e) ==> r.text(shown) == e.text(shown) && r.mentioned()
            == e.mentioned(),
        r matches Refusal::Envelope(e) ==> text::occurs(r.text(shown), shown[0]) && r.mentioned()
            == seq![e.value],
{
    if r is Envelope {
        text::parts_occur(
            "attack_ms/release_ms must be in [0.1, 2000] ms (got "@,
            shown[0],
            ")"@,
        );
    }
}

/// An action, a refusal and a record say what they hold, part by part.
pub proof fn actions_say_what_they_hold(a: ClientAction, r: Refusal, k: Record)
    ensures
        a@ matches Outcome::Do(order) ==> (a matches ClientAction::Send(cmd) && order_of(cmd)
            == order),
        a@ matches Outcome::Refuse(why) ==> (a matches ClientAction::Reply(given) && given@ == why),
        a@ is Nothing <==> a is Nothing,
        r@ matches RefusalModel::Text(t) ==> (r matches Refusal::Text(s) && s@ == t),
        r@ matches RefusalModel::Mouth(e) ==> r == Refusal::Mouth(e),
        r@ matches RefusalModel::Envelope(e) ==> r == Refusal::Envelope(e),
        k@.snapshot is Some <==> k.snapshot is Some,
        k.snapshot matches Some(s) ==> k@.snapshot == Some(s@),
        k@.mouth_config == k.mouth_config && k@.envelope == k.envelope,
{
}

} // verus!

use rusty_tuber::assets::AssetCatalog;
use rusty_tuber::binary32::Binary32;
use rusty_tuber::net::{
    api_clear, api_clear_eyes, api_clear_mouth, api_set_default, api_set_envelope, api_set_eyes,
    api_set_mouth, api_set_mouth_config, api_trigger_emotion, embedded_file, handle_client,
    invalid_message, is_flat_name, is_local_host, origin_local, resolve_emotion, serve_as, ws_entry,
    ws_step, Answer, ClientAction, Record, Refusal, WsAction, WsEntry, WsEvent,
};
use rusty_tuber::protocol::{
    ClientMessage, EnvelopeConfig, EyeLayers, EyeState, LayerCatalog, MouthConfig, MouthLayers,
    MouthState, ServerMessage,
};
use rusty_tuber::state::{Effect, StateCommand, StateMachine};
use rusty_tuber::textmap::TextMap;
use std::sync::Arc;

fn num(v: f32) -> Binary32 {
    Binary32::from_bits(v.to_bits())
}

fn macaw() -> AssetCatalog {
    AssetCatalog(LayerCatalog {
        base: vec!["base/body.png".into()],
        mouths: MouthLayers {
            closed: Some("mouths/closed.png".into()),
            partial: Some("mouths/partial.png".into()),
            medium: Some("mouths/medium.png".into()),
            open: Some("mouths/open.png".into()),
        },
        default_eyes: EyeLayers {
            open: Some("eyes/open.png".into()),
            closed: Some("eyes/closed.png".into()),
        },
        emotions: TextMap::new(),
    })
}

fn with_happy() -> AssetCatalog {
    let mut c = macaw();
    c.0.emotions.insert(
        "happy".into(),
        EyeLayers {
            open: Some("eyes/happy/open.png".into()),
            closed: None,
        },
    );
    c
}

fn mouth_config() -> MouthConfig {
    MouthConfig::all_enabled(num(0.02), num(0.08), num(0.18))
}

fn envelope() -> EnvelopeConfig {
    EnvelopeConfig {
        attack_ms: num(6.0),
        release_ms: num(110.0),
    }
}

/// The state machine with a recorder listening to its broadcasts.
struct Server {
    catalog: Arc<AssetCatalog>,
    machine: StateMachine,
    record: Record,
    now: u64,
}

fn spawn_server() -> Server {
    let catalog = Arc::new(macaw());
    Server {
        machine: StateMachine::new(
            catalog.clone(),
            mouth_config(),
            TextMap::new(),
            String::new(),
            0,
            0,
        ),
        catalog,
        record: Record {
            snapshot: None,
            mouth_config: mouth_config(),
            envelope: envelope(),
        },
        now: 0,
    }
}

impl Server {
    /// Runs a command; returns the mouth and mouth frame of each state update
    /// that went out, with the eyes and eyes frame.
    fn run(&mut self, cmd: StateCommand) -> Vec<(MouthState, String, EyeState, String)> {
        self.now += 1_000_000;
        let mut out = Vec::new();
        for e in self.machine.handle(cmd, self.now) {
            if let Effect::Broadcast(m) = e {
                if let ServerMessage::StateUpdate {
                    mouth,
                    mouth_frame,
                    eyes,
                    eyes_frame,
                    ..
                } = &m
                {
                    out.push((*mouth, mouth_frame.clone(), *eyes, eyes_frame.clone()));
                }
                self.record.record(m);
            }
        }
        out
    }

    fn post(&mut self, a: Answer) -> u16 {
        if let Some(cmd) = a.send {
            self.run(cmd);
        }
        a.status
    }
}

#[test]
fn rest_catalog_lists_layers() {
    let s = spawn_server();
    let body = s.catalog.catalog();
    // Layered catalog: base body + mouths + default eyes.
    assert!(!body.base.is_empty());
    assert_eq!(body.mouths.closed.as_deref(), Some("mouths/closed.png"));
    assert_eq!(body.mouths.open.as_deref(), Some("mouths/open.png"));
    assert_eq!(body.default_eyes.open.as_deref(), Some("eyes/open.png"));
    assert_eq!(
        body.default_eyes.closed.as_deref(),
        Some("eyes/closed.png")
    );
    // No emotion eye-sets shipped with the placeholder art.
    assert!(body.emotions.len() == 0);
}

#[test]
fn rest_unknown_emotion_is_404_json() {
    let s = spawn_server();
    let a = api_trigger_emotion(&s.catalog, "does-not-exist");
    assert_eq!(a.status, 404);
    assert!(a.send.is_none());
    let why = a.refusal.unwrap();
    assert!(why.message(&vec![]).contains("unknown emotion"));
    assert_eq!(why.message(&vec![]), "unknown emotion: does-not-exist");
}

#[test]
fn rest_state_synthesises_resting_layers() {
    let s = spawn_server();
    let st = s.record.api_state(&s.catalog, "");
    assert_eq!(st.mouth, MouthState::Closed);
    assert_eq!(st.eyes, EyeState::Open);
    assert_eq!(st.eyes_frame, "/frames/eyes/open.png");
    assert_eq!(st.mouth_frame, "/frames/mouths/closed.png");
    // With a configured emotion its eyes show.
    let st = s.record.api_state(&with_happy(), "Happy");
    assert_eq!(st.emotion, "Happy");
    assert_eq!(st.default_emotion, "Happy");
    assert_eq!(st.eyes_frame, "/frames/eyes/happy/open.png");
    assert!(!st.overridden);
}

#[test]
fn rest_mouth_override_swaps_mouth_layer() {
    let mut s = spawn_server();
    assert_eq!(s.post(api_set_mouth("open")), 204);

    let st = s.record.api_state(&s.catalog, "");
    assert_eq!(st.mouth, MouthState::Open);
    assert_eq!(st.mouth_frame, "/frames/mouths/open.png");
    assert!(st.mouth_overridden);

    // Invalid level is rejected.
    let a = api_set_mouth("grin");
    assert_eq!(a.status, 400);
    assert_eq!(
        a.refusal.as_ref().unwrap().message(&vec![]),
        "invalid mouth: grin (expected closed|partial|medium|open)"
    );
    assert_eq!(s.post(a), 400);
    assert_eq!(s.post(api_clear_mouth()), 204);
    assert!(!s.record.api_state(&s.catalog, "").mouth_overridden);
}

#[test]
fn rest_eyes_override_swaps_eye_layer() {
    let mut s = spawn_server();
    assert_eq!(s.post(api_set_eyes("closed")), 204);

    let st = s.record.api_state(&s.catalog, "");
    assert_eq!(st.eyes, EyeState::Closed);
    assert_eq!(st.eyes_frame, "/frames/eyes/closed.png");

    // Clearing returns to open eyes.
    s.post(api_clear_eyes());
    let st = s.record.api_state(&s.catalog, "");
    assert_eq!(st.eyes, EyeState::Open);
    assert_eq!(st.eyes_frame, "/frames/eyes/open.png");

    let a = api_set_eyes("half");
    assert_eq!(a.status, 400);
    assert_eq!(
        a.refusal.unwrap().message(&vec![]),
        "invalid eyes: half (expected open|closed)"
    );
}

#[test]
fn ws_welcome_carries_layered_catalog() {
    let s = spawn_server();
    let welcome = s.record.welcome(&s.catalog, "calm", "low", 512, 256);
    match welcome {
        ServerMessage::Welcome {
            catalog,
            default_emotion,
            mouth_config: mc,
            envelope: env,
            latency,
            frame_width,
            frame_height,
        } => {
            assert_eq!(catalog.base, vec!["base/body.png"]);
            assert!(catalog.mouths.closed.is_some());
            assert_eq!(default_emotion, "calm");
            assert_eq!(mc, mouth_config());
            assert_eq!(env, envelope());
            assert_eq!(latency, "low");
            assert_eq!((frame_width, frame_height), (512, 256));
        }
        other => panic!("expected Welcome, got {other:?}"),
    }
}

#[test]
fn ws_mouth_override_emits_layered_state_update() {
    let mut s = spawn_server();
    let cmd = match handle_client(
        ClientMessage::SetMouthOverride {
            mouth: MouthState::Open,
        },
        &s.catalog,
    ) {
        ClientAction::Send(cmd) => cmd,
        other => panic!("expected a command, got {other:?}"),
    };
    let seen = s.run(cmd);
    assert!(
        seen.iter()
            .any(|(m, f, _, _)| *m == MouthState::Open && f == "/frames/mouths/open.png"),
        "should have received an open-mouth StateUpdate"
    );
}

#[test]
fn ws_eyes_override_emits_layered_state_update() {
    let mut s = spawn_server();
    let cmd = match handle_client(
        ClientMessage::SetEyesOverride {
            eyes: EyeState::Closed,
        },
        &s.catalog,
    ) {
        ClientAction::Send(cmd) => cmd,
        other => panic!("expected a command, got {other:?}"),
    };
    let seen = s.run(cmd);
    assert!(
        seen.iter()
            .any(|(_, _, e, f)| *e == EyeState::Closed && f == "/frames/eyes/closed.png"),
        "should have received a closed-eyes StateUpdate"
    );
}

#[test]
fn emotions_resolve_to_catalog_keys() {
    let c = with_happy();
    assert_eq!(resolve_emotion(&c, "HaPPy"), Ok("happy".into()));
    assert_eq!(
        resolve_emotion(&c, "Sad"),
        Err("unknown emotion: Sad".into())
    );
    let a = api_set_default(&c, "HAPPY");
    assert_eq!(a.status, 204);
    assert_eq!(a.send, Some(StateCommand::SetDefault("happy".into())));
    assert_eq!(api_set_default(&c, "sad").status, 404);
    assert_eq!(api_clear().send, Some(StateCommand::ClearOverride));
}

#[test]
fn every_client_message_is_decided() {
    let c = with_happy();
    let send = |m: ClientMessage| match handle_client(m, &c) {
        ClientAction::Send(cmd) => Some(cmd),
        _ => None,
    };
    assert!(matches!(
        handle_client(ClientMessage::Hello, &c),
        ClientAction::Nothing
    ));
    assert_eq!(
        send(ClientMessage::TriggerEmotion {
            emotion: "Happy".into()
        }),
        Some(StateCommand::TriggerEmotion("happy".into()))
    );
    assert_eq!(
        send(ClientMessage::SetDefault {
            emotion: "happy".into()
        }),
        Some(StateCommand::SetDefault("happy".into()))
    );
    assert_eq!(
        send(ClientMessage::ClearOverride),
        Some(StateCommand::ClearOverride)
    );
    assert_eq!(
        send(ClientMessage::ClearMouthOverride),
        Some(StateCommand::ClearMouthOverride)
    );
    assert_eq!(
        send(ClientMessage::ClearEyesOverride),
        Some(StateCommand::ClearEyesOverride)
    );
    assert_eq!(
        send(ClientMessage::SetMouthConfig {
            config: mouth_config()
        }),
        Some(StateCommand::SetMouthConfig(mouth_config()))
    );
    assert_eq!(
        send(ClientMessage::SetEnvelope { config: envelope() }),
        Some(StateCommand::SetEnvelope(envelope()))
    );
    match handle_client(
        ClientMessage::TriggerEmotion {
            emotion: "sad".into(),
        },
        &c,
    ) {
        ClientAction::Reply(Refusal::Text(s)) => assert_eq!(s, "unknown emotion: sad"),
        other => panic!("unexpected {other:?}"),
    }
    assert_eq!(invalid_message("eof"), "invalid message: eof");
}

#[test]
fn bad_settings_are_refused() {
    let bad = MouthConfig {
        enabled: [false; 4],
        ..mouth_config()
    };
    let a = api_set_mouth_config(bad);
    assert_eq!(a.status, 400);
    assert!(a.send.is_none());
    let why = a.refusal.unwrap();
    assert!(why.numbers().is_empty());
    assert_eq!(
        why.message(&vec![]),
        "at least one mouth level must be enabled"
    );
    assert_eq!(api_set_mouth_config(mouth_config()).status, 204);
    let a = api_set_envelope(EnvelopeConfig {
        attack_ms: num(0.0),
        release_ms: num(1.0),
    });
    let why = a.refusal.unwrap();
    assert_eq!(why.numbers(), vec![num(0.0)]);
    assert_eq!(
        why.message(&vec!["0".into()]),
        "attack_ms/release_ms must be in [0.1, 2000] ms (got 0)"
    );
    assert_eq!(api_set_envelope(envelope()).status, 204);
}

#[test]
fn record_keeps_the_latest() {
    let mut s = spawn_server();
    assert!(s.record.resync().is_none());
    assert_eq!(s.record.default_or_snapshot("calm"), "calm");
    s.run(StateCommand::SetDefault("happy".into()));
    assert_eq!(s.record.default_or_snapshot("calm"), "happy");
    let other = EnvelopeConfig {
        attack_ms: num(1.0),
        release_ms: num(2.0),
    };
    s.run(StateCommand::SetEnvelope(other));
    assert_eq!(s.record.envelope, other);
    let cfg = MouthConfig {
        enabled: [true, false, false, true],
        ..mouth_config()
    };
    s.run(StateCommand::SetMouthConfig(cfg));
    assert_eq!(s.record.mouth_config, cfg);
    s.record.record(ServerMessage::Error {
        message: "x".into(),
    });
    match s.record.resync() {
        Some(ServerMessage::StateUpdate {
            default_emotion, ..
        }) => assert_eq!(default_emotion, "happy"),
        other => panic!("unexpected {other:?}"),
    }
}

#[test]
fn socket_events_lead_to_actions() {
    let mut s = spawn_server();
    let r = &s.record;
    assert!(matches!(ws_step(WsEvent::Text("{}".into()), r), WsAction::Client(t) if t == "{}"));
    assert!(matches!(
        ws_step(WsEvent::Binary("h\u{e9}".as_bytes().to_vec()), r),
        WsAction::Client(t) if t == "h\u{e9}"
    ));
    assert!(matches!(
        ws_step(WsEvent::Binary(vec![0xff, 0xfe]), r),
        WsAction::Nothing
    ));
    assert!(matches!(ws_step(WsEvent::Ping(vec![1, 2]), r), WsAction::Pong(p) if p == vec![1, 2]));
    assert!(matches!(ws_step(WsEvent::Gone, r), WsAction::Stop));
    assert!(matches!(ws_step(WsEvent::Finished, r), WsAction::Stop));
    assert!(matches!(ws_step(WsEvent::Other, r), WsAction::Nothing));
    assert!(matches!(ws_step(WsEvent::Lagged, r), WsAction::Nothing));
    s.run(StateCommand::ClearOverride);
    assert!(matches!(
        ws_step(WsEvent::Lagged, &s.record),
        WsAction::Push(ServerMessage::StateUpdate { .. })
    ));
    let m = ServerMessage::Error {
        message: "x".into(),
    };
    assert!(matches!(
        ws_step(WsEvent::Outgoing(m), &s.record),
        WsAction::Push(ServerMessage::Error { .. })
    ));
}

#[test]
fn only_local_origins_may_connect() {
    for o in [
        "http://localhost",
        "http://localhost:8080/path",
        "https://127.0.0.1:1",
        "http://10.1.2.3",
        "http://172.16.0.1:9000",
        "http://172.31.255.255",
        "http://192.168.1.5",
        "localhost",
        "http://[::1]:80",
        "http://[::1]",
        "https://[::1]/path",
        "http://127.0.0.2",
    ] {
        assert!(origin_local(o), "{o}");
    }
    for o in [
        "https://example.com",
        "http://172.15.0.1",
        "http://172.32.0.1",
        "http://172",
        "http://192.169.1.1",
        "http://10.evil.com",
        "http://172.16.evil.com",
        "http://192.168.evil.com:80",
        "http://10.1.2.3.evil.com",
        "http://10.1.2",
        "http://10.1.2.256",
        "http://172.016.0.1",
        "http://[::1]evil.com",
        "http://[::2]",
        "http://evil.com://localhost",
        "",
        "null",
    ] {
        assert!(!origin_local(o), "{o}");
    }
    assert!(is_local_host("::1"));
    assert!(!is_local_host("172.x.0.1"));
    assert!(!is_local_host("172.+20.0.1"));
    assert!(is_local_host("172.20.0.1"));
}

#[test]
fn sockets_open_for_local_clients_while_there_is_room() {
    assert!(matches!(ws_entry(None, true), WsEntry::Open));
    assert!(matches!(
        ws_entry(Some("http://localhost:1"), true),
        WsEntry::Open
    ));
    match ws_entry(Some("http://evil.example"), false) {
        WsEntry::Closed { status, reason } => {
            assert_eq!(status, 403);
            assert_eq!(reason, "origin not allowed: http://evil.example");
        }
        other => panic!("unexpected {other:?}"),
    }
    match ws_entry(None, false) {
        WsEntry::Closed { status, reason } => {
            assert_eq!(status, 503);
            assert_eq!(reason, "too many websocket clients");
        }
        other => panic!("unexpected {other:?}"),
    }
}

#[test]
fn embedded_files_have_their_type() {
    let s = embedded_file("index.html", Some(b"<p>".to_vec()));
    assert_eq!(s.status, 200);
    let (kind, data) = s.file.unwrap();
    assert_eq!(kind, "text/html");
    assert_eq!(data, b"<p>".to_vec());
    assert_eq!(
        embedded_file("data", Some(vec![])).file.unwrap().0,
        "application/octet-stream"
    );
    assert_eq!(embedded_file("index.html", None).status, 404);
    assert_eq!(embedded_file("../x", Some(vec![1])).status, 404);
    assert_eq!(embedded_file("a/b.js", Some(vec![1])).status, 404);
    assert!(is_flat_name("app.js"));
    assert!(!is_flat_name("a..b"));
    assert_eq!(serve_as("text/css".into(), vec![7]).file.unwrap().1, vec![7]);
}

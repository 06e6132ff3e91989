use gguf_rs::dtype::DType;
use gguf_rs::runtime::generate::{Generation, StopReason};
use gguf_rs::runtime::reply::Reply;
use gguf_rs::sample::{Rng, SampleParams, Sampler};
use gguf_rs::server::config::{
    ModelDefaults, ModelEntry, Named, Registry, ServeConfig, Source,
};
use gguf_rs::server::openai::{
    finish_reason, new_chunk_id, ApiError, ChatRequest, ChatResponse, CompletionRequest, Content,
    ContentPart, Message, ModelList, Stop, Usage,
};
use gguf_rs::server::request::{
    chat_job, chat_messages, completion_job, resolve, Collected, Emission, Event, JobInput,
    Progress, StreamState,
};
use gguf_rs::server::schedule::{needs_switch, refuse_prompt, Schedule};

fn nothing() -> ModelDefaults {
    ModelDefaults {
        ctx: None,
        batch: None,
        parallel: None,
        threads: None,
        device: None,
        kv_type: None,
        enable_thinking: None,
        temperature: None,
        top_k: None,
        top_p: None,
        min_p: None,
        repeat_penalty: None,
        max_tokens: None,
        system: None,
    }
}

fn two_models() -> Registry {
    Registry {
        defaults: ModelDefaults { ctx: Some(1000), top_k: Some(7), ..nothing() },
        models: vec![
            Named {
                name: "alpha".into(),
                entry: ModelEntry { path: "a.gguf".into(), preload: false, settings: nothing() },
            },
            Named {
                name: "beta".into(),
                entry: ModelEntry {
                    path: "b.gguf".into(),
                    preload: true,
                    settings: ModelDefaults {
                        top_k: Some(3),
                        max_tokens: Some(9),
                        system: Some("be brief".into()),
                        ..nothing()
                    },
                },
            },
        ],
    }
}

fn said(role: &str, text: &str) -> Message {
    Message { role: role.into(), content: Some(Content::Text(text.into())) }
}

fn chat(model: Option<&str>, messages: Vec<Message>) -> ChatRequest {
    ChatRequest {
        model: model.map(|s| s.into()),
        messages,
        temperature: None,
        top_p: None,
        top_k: None,
        min_p: None,
        max_tokens: None,
        max_completion_tokens: None,
        presence_penalty: None,
        frequency_penalty: None,
        repeat_penalty: None,
        seed: None,
        stop: None,
        stream: false,
    }
}

#[test]
fn settings_of_a_model_come_before_the_defaults() {
    let r = two_models();
    let a = r.resolve("alpha").unwrap();
    assert_eq!((a.ctx, a.top_k), (1000, 7));
    let b = r.resolve("beta").unwrap();
    assert_eq!((b.ctx, b.top_k, b.max_tokens), (1000, 3, 9));
    // The engine serves at least one request, with half-precision caches unless told otherwise.
    let mut c = r.resolve("beta").unwrap();
    let o = c.options().unwrap();
    assert_eq!((o.n_ctx, o.n_seq, o.kv_type, o.enable_thinking), (1000, c.parallel, DType::F16, None));
    (c.parallel, c.kv_type, c.enable_thinking) = (0, "f32".into(), Some(false));
    let o = c.options().unwrap();
    assert_eq!((o.n_seq, o.kv_type, o.enable_thinking), (1, DType::F32, Some(false)));
    c.device = "tpu".into();
    assert!(c.options().is_err());
    assert!(r.resolve("gamma").is_none());
    assert_eq!(r.names(), vec!["alpha", "beta"]);
    assert_eq!(r.preloaded().as_deref(), Some("beta"));
}

#[test]
fn a_registry_must_point_at_files() {
    let r = two_models();
    assert_eq!(r.fault("m.toml", &vec![true, true]), None);
    assert_eq!(
        r.fault("m.toml", &vec![true, false]).unwrap(),
        "model \"beta\" points at b.gguf, which does not exist"
    );
    let empty = Registry { defaults: nothing(), models: vec![] };
    assert_eq!(
        empty.fault("m.toml", &vec![]).unwrap(),
        "m.toml declares no models; add a [models.<name>] section with a path"
    );
}

#[test]
fn something_must_be_served() {
    let mut c = ServeConfig {
        config: None,
        model: None,
        host: "127.0.0.1".into(),
        port: 8080,
        parallel: 4,
        device: "auto".into(),
        ctx: 0,
        threads: 0,
    };
    assert!(c.source().unwrap_err().starts_with("nothing to serve"));
    c.model = Some("m.gguf".into());
    assert!(matches!(c.source(), Ok(Source::Model(m)) if m == "m.gguf"));
    c.config = Some("r.toml".into());
    assert!(matches!(c.source(), Ok(Source::File(f)) if f == "r.toml"));
    let r = Registry::single("dir/m.gguf", Some("m".into()), "cpu", 128, 2, 1);
    assert_eq!(r.names(), vec!["m"]);
    assert_eq!(r.resolve("m").unwrap().path, "dir/m.gguf");
}

#[test]
fn unknown_models_are_refused_by_name() {
    let r = two_models();
    assert_eq!(
        resolve(&r, &Some("gamma".into())).unwrap_err(),
        "unknown model \"gamma\"; this server has alpha, beta"
    );
    assert!(resolve(&r, &None).is_ok());
    let empty = Registry { defaults: nothing(), models: vec![] };
    assert_eq!(resolve(&empty, &None).unwrap_err(), "the registry is empty");
}

#[test]
fn a_system_turn_is_put_first_unless_there_is_one() {
    let s = Some("be brief".to_string());
    let m = chat_messages(&s, &vec![said("user", "hi")]);
    assert_eq!(m.len(), 2);
    assert_eq!((m[0].role.as_str(), m[0].content.as_str()), ("system", "be brief"));
    let m = chat_messages(&s, &vec![said("system", "own"), said("user", "hi")]);
    assert_eq!(m.len(), 2);
    assert_eq!(m[0].content, "own");
}

#[test]
fn requests_become_jobs() {
    let r = two_models();
    assert_eq!(chat_job(&r, chat(None, vec![])).err().unwrap(), "messages must not be empty");
    let mut q = chat(Some("beta"), vec![said("user", "hi")]);
    q.temperature = Some(0.5f32.to_bits());
    q.stop = Some(Stop::One("END".into()));
    q.seed = Some(11);
    let j = chat_job(&r, q).unwrap();
    assert_eq!(j.model, "beta");
    assert_eq!((j.max_tokens, j.params.top_k, j.params.seed), (9, 3, 11));
    assert_eq!(j.params.temperature, 0.5f32.to_bits());
    assert_eq!(j.stop_strings, vec!["END"]);
    assert!(matches!(j.input, JobInput::Chat(m) if m.len() == 2));
    let q = CompletionRequest {
        model: Some("alpha".into()),
        prompt: "once".into(),
        temperature: None,
        top_p: None,
        top_k: Some(2),
        min_p: None,
        max_tokens: Some(5),
        seed: None,
        stop: Some(Stop::Many(vec!["a".into(), "b".into()])),
        stream: true,
    };
    let j = completion_job(&r, q).unwrap();
    assert_eq!((j.max_tokens, j.params.top_k, j.stream), (5, 2, true));
    assert_eq!(j.stop_strings, vec!["a", "b"]);
    assert!(matches!(j.input, JobInput::Raw(p) if p == "once"));
}

#[test]
fn parts_are_joined_by_lines() {
    let part = |s: Option<&str>| ContentPart { text: s.map(|x| x.into()) };
    let c = Content::Parts(vec![part(Some("a")), part(None), part(Some("b"))]);
    assert_eq!(c.text(), "a\nb");
    assert_eq!(Content::Text("x".into()).text(), "x");
}

fn hexadecimal(id: &str, prefix: &str) {
    let rest = id.strip_prefix(prefix).unwrap();
    assert_eq!(rest.len(), 32);
    assert!(rest.chars().all(|c| c.is_ascii_digit() || ('a'..='f').contains(&c)), "{rest}");
    assert_eq!(&rest[12..13], "4");
}

#[test]
fn replies_have_fresh_ids_and_the_time() {
    let u = Usage { prompt_tokens: 1, completion_tokens: 2, total_tokens: 3 };
    let r = ChatResponse::new("m", "hello".into(), "stop", u);
    hexadecimal(&r.id, "chatcmpl-");
    assert!(r.created > 1_600_000_000);
    assert_eq!(r.choices[0].message.content, "hello");
    let (a, b) = (new_chunk_id(), new_chunk_id());
    hexadecimal(&a, "chatcmpl-");
    assert_ne!(a, b);
    let l = ModelList::new(vec!["x".into()]);
    assert_eq!((l.object, l.data[0].id.as_str(), l.data[0].owned_by), ("list", "x", "gguf-rs"));
    assert_eq!(ApiError::new("no".into()).error.kind, "invalid_request_error");
}

#[test]
fn reasons_are_told_as_clients_know_them() {
    assert_eq!(finish_reason(StopReason::MaxTokens), "length");
    assert_eq!(finish_reason(StopReason::ContextFull), "length");
    assert_eq!(finish_reason(StopReason::EndOfGeneration), "stop");
    assert_eq!(finish_reason(StopReason::Cancelled), "stop");
}

#[test]
fn a_stream_opens_with_the_role_and_ends_once() {
    let mut s = StreamState::new("m".into(), false);
    let first = s.opening().unwrap();
    assert_eq!(first.choices[0].delta.role, Some("assistant"));
    assert!(s.opening().is_none());
    match s.emit(Event::Chunk("hi".into())) {
        Emission::Chunk(c) => assert_eq!(c.choices[0].delta.content.as_deref(), Some("hi")),
        Emission::Error(_) => panic!("no chunk"),
    }
    match s.emit(Event::Done { reason: StopReason::MaxTokens, prompt_tokens: 1, generated: 2 }) {
        Emission::Chunk(c) => assert_eq!(c.choices[0].finish_reason, Some("length")),
        Emission::Error(_) => panic!("no chunk"),
    }
    assert!(s.finished);
    let mut s = StreamState::new("m".into(), false);
    assert!(matches!(s.emit(Event::Failed("bad".into())), Emission::Error(e) if e.error.message == "bad"));
}

#[test]
fn a_reply_is_collected() {
    let mut c = Collected::new();
    assert!(matches!(c.take(Event::Chunk("a".into())), Progress::More));
    assert!(matches!(c.take(Event::Chunk("b".into())), Progress::More));
    let done = Event::Done { reason: StopReason::EndOfGeneration, prompt_tokens: 4, generated: 2 };
    assert!(matches!(c.take(done), Progress::Finished));
    assert_eq!(c.text, "ab");
    let u = c.usage();
    assert_eq!((u.prompt_tokens, u.completion_tokens, u.total_tokens), (4, 2, 6));
    assert!(matches!(Collected::new().take(Event::Failed("x".into())), Progress::Failed(m) if m == "x"));
}

fn reply() -> Reply {
    let sampler = Sampler {
        params: SampleParams::greedy(),
        rng: Rng::new(1),
        mirostat_mu: 0,
        recent: vec![],
    };
    Reply { sampler, generation: Generation::new(1, 10, 5, vec![]) }
}

#[test]
fn regions_are_given_out_once() {
    let mut s = Schedule::new(2);
    assert!(s.is_idle());
    s.begin(0, reply(), 1, vec![]);
    assert_eq!(s.free_region(), Ok(1));
    s.begin(1, reply(), 1, vec![]);
    assert_eq!(
        s.free_region().unwrap_err(),
        "every sequence slot is busy; raise `parallel` in the registry"
    );
    let gone = s.retire(&vec![0]);
    assert_eq!(gone.len(), 1);
    assert_eq!(s.free_region(), Ok(0));
    assert!(s.must_drain(&Some("a".into()), "b"));
    assert!(!s.must_drain(&Some("a".into()), "a"));
    assert!(needs_switch(&None, "a"));
    assert!(!needs_switch(&Some("a".into()), "a"));
}

#[test]
fn prompts_that_do_not_fit_are_refused() {
    assert_eq!(refuse_prompt(0, 10).unwrap(), "the prompt is empty");
    assert_eq!(refuse_prompt(10, 10).unwrap(), "the prompt is 10 tokens but the context is 10");
    assert_eq!(refuse_prompt(9, 10), None);
}

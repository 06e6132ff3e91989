use gguf_rs::cli::args::{
    truncate, BenchArgs, CheckArgs, LoadArgs, SamplerArgs, ServeArgs,
};
use gguf_rs::cli::chat::{Entry, History};
use gguf_rs::cli::compare::{verdict, Comparison};
use gguf_rs::cli::summary::{Printer, Show};
use gguf_rs::device::{Caps, DeviceInfo, DeviceKind};
use gguf_rs::dtype::DType;
use gguf_rs::error::Error;
use gguf_rs::gguf::value::Value;
use gguf_rs::runtime::device::DeviceSelector;
use gguf_rs::single::{Arith, FloatOp};

/// Single-precision arithmetic on bits.
fn single(op: FloatOp, a: u32, b: u32) -> u32 {
    let x = f32::from_bits(a);
    let y = f32::from_bits(b);
    let wide = (b as u64) << 32 | a as u64;
    match op {
        FloatOp::Add => (x + y).to_bits(),
        FloatOp::Sub => (x - y).to_bits(),
        FloatOp::Mul => (x * y).to_bits(),
        FloatOp::Div => (x / y).to_bits(),
        FloatOp::Exp => x.exp().to_bits(),
        FloatOp::Ln => x.ln().to_bits(),
        FloatOp::Log2 => x.log2().to_bits(),
        FloatOp::FromInt => (a as i32 as f32).to_bits(),
        FloatOp::Round => x.round_ties_even() as i32 as u32,
        FloatOp::FromDouble => (f64::from_bits(wide) as f32).to_bits(),
        FloatOp::FromLong => (wide as i64 as f32).to_bits(),
        FloatOp::FromHalf => half::f16::from_bits(a as u16).to_f32().to_bits(),
        FloatOp::ToHalf => half::f16::from_f32(x).to_bits() as u32,
        FloatOp::FromCount => (wide as f32).to_bits(),
        FloatOp::Tanh => x.tanh().to_bits(),
        FloatOp::Sqrt => x.sqrt().to_bits(),
        FloatOp::Sin => x.sin().to_bits(),
        FloatOp::Cos => x.cos().to_bits(),
        FloatOp::Pow => x.powf(y).to_bits(),
        FloatOp::Floor => x.floor().to_bits(),
        FloatOp::Ceil => x.ceil().to_bits(),
    }
}

fn arith() -> Arith<fn(FloatOp, u32, u32) -> u32> {
    Arith { op: single }
}

fn bits(v: &[f32]) -> Vec<u32> {
    v.iter().map(|x| x.to_bits()).collect()
}

fn load() -> LoadArgs {
    LoadArgs {
        model: "m.gguf".into(),
        device: "cuda:1".into(),
        ctx: 100,
        batch: 8,
        threads: 2,
        kv_type: "f16".into(),
        no_think: false,
    }
}

#[test]
fn options_follow_the_arguments() {
    let o = load().options(3).unwrap();
    assert!(matches!(o.device, DeviceSelector::Cuda(Some(1))));
    assert_eq!((o.n_ctx, o.n_seq, o.batch, o.threads), (100, 3, 8, 2));
    assert_eq!((o.kv_type, o.enable_thinking), (DType::F16, None));
    let mut l = load();
    l.kv_type = "f32".into();
    l.no_think = true;
    let o = l.options(1).unwrap();
    assert_eq!((o.kv_type, o.enable_thinking), (DType::F32, Some(false)));
    l.device = "toaster".into();
    assert!(l.options(1).is_err());
}

#[test]
fn sampling_and_serving_follow_the_arguments() {
    let a = SamplerArgs {
        temp: 1,
        top_k: 2,
        top_p: 3,
        min_p: 4,
        typical_p: 5,
        repeat_penalty: 6,
        repeat_last_n: 7,
        presence_penalty: 8,
        frequency_penalty: 9,
        mirostat: 10,
        mirostat_tau: 11,
        mirostat_eta: 12,
        seed: 13,
    };
    let p = a.params();
    assert_eq!((p.temperature, p.top_k, p.top_p, p.min_p, p.typical_p), (1, 2, 3, 4, 5));
    assert_eq!((p.repeat_penalty, p.repeat_last_n, p.mirostat, p.seed), (6, 7, 10, 13));
    let c = ServeArgs {
        config: None,
        model: Some("m".into()),
        host: "h".into(),
        port: 1,
        parallel: 2,
        device: "cpu".into(),
        ctx: 3,
        threads: 4,
    }
    .into_config();
    assert_eq!((c.model.as_deref(), c.host.as_str(), c.port, c.parallel), (Some("m"), "h", 1, 2));
}

#[test]
fn devices_to_compare_are_listed() {
    let mut b = BenchArgs { load: load(), prompt_len: 1, gen_len: 1, compare: None };
    assert_eq!(b.devices(), vec!["cuda:1"]);
    b.compare = Some("cpu, cuda ,vulkan".into());
    assert_eq!(b.devices(), vec!["cpu", "cuda", "vulkan"]);
    let c = CheckArgs {
        model: "m".into(),
        device: "cuda".into(),
        prompt: None,
        tokens: 1,
        ctx: 64,
        batch: 16,
    };
    assert_eq!(c.text(), "The capital of France is Paris, and the capital of Japan is");
    let o = c.options(DeviceSelector::Cpu);
    assert_eq!((o.n_ctx, o.batch, o.n_seq), (64, 16, 1));
}

#[test]
fn long_names_are_cut() {
    assert_eq!(truncate("abcdef", 6), "abcdef");
    assert_eq!(truncate("abcdef", 4), "abc…");
}

#[test]
fn lines_typed_are_understood() {
    assert!(matches!(Entry::read("  \n"), Entry::Nothing));
    assert!(matches!(Entry::read("/reset\n"), Entry::Reset));
    assert!(matches!(Entry::read(" /quit"), Entry::Quit));
    assert!(matches!(Entry::read("/exit"), Entry::Quit));
    assert!(matches!(Entry::read(" hello \n"), Entry::Say(s) if s == "hello"));
    let mut h = History::new(&Some("rules".into()));
    h.say("user", "a");
    h.say("assistant", "b");
    assert_eq!(h.messages.len(), 3);
    h.clear();
    assert_eq!(h.messages.len(), 1);
    assert_eq!(h.messages[0].content, "rules");
}

#[test]
fn logits_are_compared() {
    let m = arith();
    let a = bits(&[1.0, 5.0, 3.0, 0.0, -1.0, -2.0, -3.0]);
    let b = bits(&[1.0, 5.0, 4.5, 0.0, -1.0, -9.0, 9.0]);
    let c = Comparison::of(&a, &b, &m);
    assert_eq!((f32::from_bits(c.worst), c.at), (12.0, 6));
    assert_eq!(c.reference, vec![1, 2, 0, 3, 4]);
    assert_eq!(c.candidate, vec![6, 1, 2, 0, 3]);
    assert_eq!(c.overlap, 4);
    assert_eq!(verdict("same", "same"), "\nbackends agree");
    assert_eq!(verdict("same", "sand"), "\nbackends DIVERGE after 2 identical characters");
}

#[test]
fn values_are_shown_on_one_line() {
    let p = Printer {
        show: |x: Show| match x {
            Show::Single(b) => format!("{}", f32::from_bits(b)),
            _ => String::new(),
        },
    };
    assert_eq!(Value::U8(7).summary(&p), "7");
    assert_eq!(Value::Bool(true).summary(&p), "true");
    assert_eq!(Value::F32(1.5f32.to_bits()).summary(&p), "1.5");
    assert_eq!(Value::String("a\nb".into()).summary(&p), "\"a\\nb\"");
    let long = Value::String("x".repeat(100));
    assert_eq!(long.summary(&p), format!("\"{}\"... (100 bytes)", "x".repeat(90)));
    let cut = Value::String("é".repeat(45) + &"x".repeat(20));
    assert!(cut.has_summary());
    assert!(!Value::String("x".to_string() + &"é".repeat(60)).has_summary());
    let many = Value::Array((0..8).map(Value::U32).collect());
    assert_eq!(many.summary(&p), "[0, 1, 2, 3, 4, 5, ... 8 items]");
}

#[test]
fn devices_are_listed_in_columns() {
    let d = DeviceInfo {
        kind: DeviceKind::Cuda,
        index: 1,
        name: "Card".into(),
        total_memory: 8 << 30,
        free_memory: 0,
        caps: Caps::default(),
    };
    assert_eq!(d.id(), "cuda:1");
    assert!(d.line().contains("Card"), "{}", d.line());
}

#[test]
fn every_error_reads_as_a_sentence() {
    let s = |x: &str| x.to_string();
    assert_eq!(Error::Format(s("x")).message(), "malformed GGUF: x");
    assert_eq!(Error::Unsupported(s("x")).message(), "unsupported: x");
    assert_eq!(Error::MissingTensor(s("x")).message(), "missing tensor: x");
    assert_eq!(Error::MissingKey(s("x")).message(), "missing metadata key: x");
    assert_eq!(Error::NoDevice(s("x")).message(), "no usable device: x");
    assert_eq!(Error::Shape(s("x")).message(), "shape error: x");
    assert_eq!(Error::Io(s("x")).message(), "io: x");
    let e = Error::Backend { device: s("cuda"), detail: s("x") };
    assert_eq!(e.message(), "cuda backend: x");
    let e = Error::OutOfMemory { device: s("cuda"), requested: 3 << 20, available: 1 << 20 };
    assert_eq!(e.message(), "cuda out of memory: needed 3.0 MiB, 1.0 MiB free");
}

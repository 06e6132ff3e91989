//! From the bytes of a file to logits.

use gguf_rs::backend::NormCfg;
use gguf_rs::cli::args::InspectArgs;
use gguf_rs::cli::inspect::inspect;
use gguf_rs::cli::summary::{Printer, Show};
use gguf_rs::cpu::machine::CpuBackend;
use gguf_rs::cpu::processor::Processor;
use gguf_rs::device::BufferId;
use gguf_rs::dtype::{DType, QuantView};
use gguf_rs::error::Error;
use gguf_rs::gguf::model::GgufModel;
use gguf_rs::gguf::reader::TensorInfo;
use gguf_rs::jinja::number::{Maths, NumOp};
use gguf_rs::model::graph::{Model, Op};
use gguf_rs::model::spec::ArchSpec;
use gguf_rs::model::weights::{Binder, LoadStep};
use gguf_rs::runtime::generate::{Step, StopReason};
use gguf_rs::runtime::kv::{layer_bytes, KvCache};
use gguf_rs::runtime::calls::{Backend, Device, Driver};
use gguf_rs::runtime::engine::Engine;
use gguf_rs::runtime::reply::{GenerateOptions, Reply, Turn};
use gguf_rs::sample::SampleParams;
use gguf_rs::scalar::{Real, Scalar};
use gguf_rs::server::request::{Event, Job, JobInput};
use gguf_rs::server::schedule::Schedule;
use gguf_rs::single::{Arith, FloatOp};
use gguf_rs::tokenizer::decode::Detokenizer;
use gguf_rs::tokenizer::facade::Tokenizer;
use gguf_rs::tokenizer::template::{Builtin, ChatMessage};

/// Single-precision arithmetic on bits.
fn single(op: FloatOp, a: u32, b: u32) -> u32 {
    let x = f32::from_bits(a);
    let y = f32::from_bits(b);
    let wide = (b as u64) << 32 | a as u64;
    match op {
        FloatOp::Add => (x + y).to_bits(),
        FloatOp::Sub => (x - y).to_bits(),
        FloatOp::Mul => (x * y).to_bits(),
        FloatOp::Div => (x / y).to_bits(),
        FloatOp::Exp => x.exp().to_bits(),
        FloatOp::Ln => x.ln().to_bits(),
        FloatOp::Log2 => x.log2().to_bits(),
        FloatOp::FromInt => (a as i32 as f32).to_bits(),
        FloatOp::Round => x.round_ties_even() as i32 as u32,
        FloatOp::FromDouble => (f64::from_bits(wide) as f32).to_bits(),
        FloatOp::FromLong => (wide as i64 as f32).to_bits(),
        FloatOp::FromHalf => half::f16::from_bits(a as u16).to_f32().to_bits(),
        FloatOp::ToHalf => half::f16::from_f32(x).to_bits() as u32,
        FloatOp::FromCount => (wide as f32).to_bits(),
        FloatOp::Tanh => x.tanh().to_bits(),
        FloatOp::Sqrt => x.sqrt().to_bits(),
        FloatOp::Sin => x.sin().to_bits(),
        FloatOp::Cos => x.cos().to_bits(),
        FloatOp::Pow => x.powf(y).to_bits(),
        FloatOp::Floor => x.floor().to_bits(),
        FloatOp::Ceil => x.ceil().to_bits(),
    }
}

fn arith() -> Arith<fn(FloatOp, u32, u32) -> u32> {
    Arith { op: single }
}

fn floats(v: &[u32]) -> Vec<f32> {
    v.iter().map(|x| f32::from_bits(*x)).collect()
}

/// Double-precision arithmetic on bits.
fn double(op: NumOp, a: u64, b: u64) -> u64 {
    let x = f64::from_bits(a);
    let y = f64::from_bits(b);
    match op {
        NumOp::Add => (x + y).to_bits(),
        NumOp::Sub => (x - y).to_bits(),
        NumOp::Mul => (x * y).to_bits(),
        NumOp::Div => (x / y).to_bits(),
        NumOp::FloorDiv => (x / y).floor().to_bits(),
        NumOp::Rem => (x % y).to_bits(),
        NumOp::Trunc => x.trunc().to_bits(),
        NumOp::FromWhole => (a as i64 as f64).to_bits(),
        NumOp::ToInt => x as i64 as u64,
    }
}

fn read_number(s: &str) -> Option<u64> {
    s.parse::<f64>().ok().map(|x| x.to_bits())
}

fn write_number(b: u64, debug: bool) -> String {
    let x = f64::from_bits(b);
    if debug {
        format!("{x:?}")
    } else {
        format!("{x}")
    }
}

type Numbers = Maths<fn(NumOp, u64, u64) -> u64, fn(&str) -> Option<u64>, fn(u64, bool) -> String>;

fn maths() -> Numbers {
    Maths { arith: double, parse: read_number, write: write_number }
}

// A file of the format, written field by field.

fn text(s: &str) -> Vec<u8> {
    let mut out = (s.len() as u64).to_le_bytes().to_vec();
    out.extend(s.as_bytes());
    out
}

fn entry(key: &str, kind: u32, value: Vec<u8>) -> Vec<u8> {
    let mut out = text(key);
    out.extend(kind.to_le_bytes());
    out.extend(value);
    out
}

fn number(key: &str, n: u32) -> Vec<u8> {
    entry(key, 4, n.to_le_bytes().to_vec())
}

fn float(key: &str, x: f32) -> Vec<u8> {
    entry(key, 6, x.to_le_bytes().to_vec())
}

fn flag(key: &str, b: bool) -> Vec<u8> {
    entry(key, 7, vec![b as u8])
}

fn string(key: &str, s: &str) -> Vec<u8> {
    entry(key, 8, text(s))
}

fn strings(key: &str, items: &[&str]) -> Vec<u8> {
    let mut v = 8u32.to_le_bytes().to_vec();
    v.extend((items.len() as u64).to_le_bytes());
    for s in items {
        v.extend(text(s));
    }
    entry(key, 9, v)
}

fn numbers(key: &str, items: &[i32]) -> Vec<u8> {
    let mut v = 5u32.to_le_bytes().to_vec();
    v.extend((items.len() as u64).to_le_bytes());
    for n in items {
        v.extend(n.to_le_bytes());
    }
    entry(key, 9, v)
}

struct Tensor {
    name: String,
    dims: Vec<u64>,
    kind: u32,
    data: Vec<u8>,
}

fn dense(name: &str, dims: &[u64], f: fn(usize) -> f32) -> Tensor {
    let n: u64 = dims.iter().product();
    let data = (0..n as usize).flat_map(|i| f(i).to_le_bytes()).collect();
    Tensor { name: name.into(), dims: dims.to_vec(), kind: 0, data }
}

fn file(entries: &[Vec<u8>], tensors: &[Tensor]) -> Vec<u8> {
    let mut out = b"GGUF".to_vec();
    out.extend(3u32.to_le_bytes());
    out.extend((tensors.len() as u64).to_le_bytes());
    out.extend((entries.len() as u64).to_le_bytes());
    for e in entries {
        out.extend(e);
    }
    let mut at = 0u64;
    for t in tensors {
        out.extend(text(&t.name));
        out.extend((t.dims.len() as u32).to_le_bytes());
        for d in &t.dims {
            out.extend(d.to_le_bytes());
        }
        out.extend(t.kind.to_le_bytes());
        out.extend(at.to_le_bytes());
        at += (t.data.len() as u64).div_ceil(32) * 32;
    }
    while out.len() % 32 != 0 {
        out.push(0);
    }
    for t in tensors {
        out.extend(&t.data);
        while out.len() % 32 != 0 {
            out.push(0);
        }
    }
    out
}

fn wave(i: usize) -> f32 {
    ((i as f32) * 0.61).sin() * 0.3
}

fn ones(_: usize) -> f32 {
    1.0
}

const VOCAB: [&str; 8] = ["<unk>", "<s>", "</s>", "▁", "a", "b", "▁a", "ab"];

/// A model of one layer with eight tokens.
fn tiny() -> Vec<u8> {
    tiny_without("")
}

/// The same without a tensor.
fn tiny_without(name: &str) -> Vec<u8> {
    let entries = vec![
        string("general.architecture", "llama"),
        string("general.name", "tiny"),
        number("llama.block_count", 1),
        number("llama.context_length", 64),
        number("llama.embedding_length", 8),
        number("llama.feed_forward_length", 16),
        number("llama.attention.head_count", 2),
        number("llama.attention.head_count_kv", 1),
        float("llama.attention.layer_norm_rms_epsilon", 1e-5),
        string("tokenizer.ggml.model", "llama"),
        strings("tokenizer.ggml.tokens", &VOCAB),
        numbers("tokenizer.ggml.token_type", &[2, 3, 3, 1, 1, 1, 1, 1]),
        number("tokenizer.ggml.bos_token_id", 1),
        number("tokenizer.ggml.eos_token_id", 2),
        flag("tokenizer.ggml.add_bos_token", true),
    ];
    let mut tensors = vec![
        dense("token_embd.weight", &[8, 8], wave),
        dense("output_norm.weight", &[8], ones),
        dense("output.weight", &[8, 8], wave),
        dense("blk.0.attn_norm.weight", &[8], ones),
        dense("blk.0.attn_q.weight", &[8, 8], wave),
        dense("blk.0.attn_k.weight", &[8, 4], wave),
        dense("blk.0.attn_v.weight", &[8, 4], wave),
        dense("blk.0.attn_output.weight", &[8, 8], wave),
        dense("blk.0.ffn_norm.weight", &[8], ones),
        dense("blk.0.ffn_gate.weight", &[8, 16], wave),
        dense("blk.0.ffn_up.weight", &[8, 16], wave),
        dense("blk.0.ffn_down.weight", &[16, 8], wave),
    ];
    tensors.retain(|t| t.name != name);
    file(&entries, &tensors)
}

fn narrow(x: Real) -> u32 {
    arith().single(x)
}

fn show(x: Show) -> String {
    match x {
        Show::Single(b) => format!("{}", f32::from_bits(b)),
        Show::Double(b) => format!("{}", f64::from_bits(b)),
        Show::Of(s) => format!("{}", f32::from_bits(arith().value(s))),
        Show::Gib(n) => format!("{:.2}", n as f64 / (1u64 << 30) as f64),
        Show::Mib(n) => format!("{:.2}", n as f64 / 1048576.0),
        Show::WholeMib(n) => format!("{:.0}", n as f64 / 1048576.0),
        Show::Scientific(b) => format!("{:.3e}", f32::from_bits(b)),
    }
}

// ------------------------------------------------------------------------------------ reading

#[test]
fn a_file_is_read_back() {
    let bytes = tiny();
    let g = GgufModel::open(&bytes).unwrap();
    assert_eq!(g.version, 3);
    assert_eq!(g.meta.arch, "llama");
    assert_eq!(g.meta.u32("block_count"), Some(1));
    assert_eq!(g.meta.string("context_length"), None);
    assert_eq!(g.meta.raw("general.name").unwrap().as_str(), Some("tiny"));
    assert_eq!(g.tensors.len(), 12);
    let v = g.view("blk.0.attn_k.weight").unwrap();
    assert_eq!((v.rows, v.cols, v.dtype), (4, 8, DType::F32));
    let row: Vec<f32> =
        v.row(1).chunks(4).map(|c| f32::from_le_bytes(c.try_into().unwrap())).collect();
    assert_eq!(row, (8..16).map(wave).collect::<Vec<_>>());
    assert_eq!(g.info("token_embd.weight").unwrap().shape_string(), "8 x 8");
    assert_eq!(g.dominant_dtype(), DType::F32);
    assert_eq!(g.dtypes(), vec![DType::F32]);
    assert_eq!(g.block0_suffixes().len(), 9);
}

#[test]
fn a_missing_tensor_is_named_with_its_neighbours() {
    let bytes = tiny();
    let g = GgufModel::open(&bytes).unwrap();
    let e = g.view("blk.0.attn_z.weight").err().unwrap();
    assert!(matches!(&e, Error::MissingTensor(_)));
    let m = e.message();
    assert!(m.starts_with("missing tensor: blk.0.attn_z.weight"), "{m}");
    assert!(m.contains("blk.0.attn_q.weight"), "{m}");
}

#[test]
fn damaged_files_are_refused() {
    let good = tiny();
    assert!(matches!(GgufModel::open(&good[..3]).err(), Some(Error::Io(_))));
    let mut magic = good.clone();
    magic[0] = b'X';
    let e = GgufModel::open(&magic).err().unwrap();
    assert!(e.message().contains("not a GGUF file (magic [58, 47, 55, 46]"), "{}", e.message());
    let mut version = good.clone();
    version[4] = 9;
    let e = GgufModel::open(&version).err().unwrap();
    assert!(e.message().contains("GGUF version 9 is not supported"), "{}", e.message());
    let e = GgufModel::open(&good[..good.len() - 64]).err().unwrap();
    assert!(e.message().contains("runs past end of file"), "{}", e.message());
    let odd = file(&[entry("x", 77, vec![])], &[]);
    let e = GgufModel::open(&odd).err().unwrap();
    assert!(e.message().contains("unknown metadata value type 77"), "{}", e.message());
    let wide = file(&[], &[Tensor { name: "t".into(), dims: vec![1; 5], kind: 0, data: vec![] }]);
    let e = GgufModel::open(&wide).err().unwrap();
    assert!(e.message().contains("declares 5 dimensions; ggml allows at most 4"), "{}", e.message());
    let ragged =
        file(&[], &[Tensor { name: "t".into(), dims: vec![33], kind: 8, data: vec![0; 128] }]);
    let e = GgufModel::open(&ragged).err().unwrap();
    assert!(e.message().contains("has row length 33 which is not a multiple"), "{}", e.message());
}

#[test]
fn bytes_that_are_no_text_are_replaced() {
    let mut e = 9u64.to_le_bytes().to_vec();
    e.extend(b"general.x");
    e.extend(8u32.to_le_bytes());
    e.extend(3u64.to_le_bytes());
    e.extend([b'a', 0xff, b'b']);
    let bytes = file(&[e], &[]);
    let g = GgufModel::open(&bytes).unwrap();
    assert_eq!(g.meta.raw("general.x").unwrap().as_str(), Some("a\u{fffd}b"));
}

// ------------------------------------------------------------------------------- the tokenizer

#[test]
fn pieces_are_merged_and_read_back() {
    let bytes = tiny();
    let g = GgufModel::open(&bytes).unwrap();
    let t = Tokenizer::from_gguf(&g.meta, &narrow, &maths()).unwrap();
    assert_eq!(t.vocab.len(), 8);
    assert_eq!(t.vocab.id("ab"), Some(7));
    let ids = t.encode("a", true);
    assert_eq!(ids, vec![1, 6]);
    assert_eq!(t.tokenize_prompt("a"), ids);
    assert_eq!(t.decode(&ids[1..], true), " a");
    // Special tokens are taken whole, and left out of what is read back.
    assert_eq!(t.encode("</s>", false), vec![2]);
    assert_eq!(t.decode(&[2], true), "");
    assert_eq!(t.decode(&[2], false), "</s>");
    assert!(t.is_eog(2));
    assert!(!t.is_eog(4));
    assert_eq!(t.eos_ids(), &[2]);
}

/// The character that stands for a byte.
fn byte_char(b: u32) -> char {
    let printed = |b: u32| (33..127).contains(&b) || (161..173).contains(&b) || b >= 174;
    let code = if printed(b) { b } else { 256 + (0..b).filter(|x| !printed(*x)).count() as u32 };
    char::from_u32(code).unwrap()
}

#[test]
fn byte_level_text_reads_back() {
    let mut tokens: Vec<String> = (0..256).map(|b| byte_char(b).to_string()).collect();
    tokens.extend(["Ġt", "he", "Ġthe", "<|end|>"].map(String::from));
    let tokens: Vec<&str> = tokens.iter().map(|s| s.as_str()).collect();
    let mut types = vec![1; 259];
    types.push(3);
    let entries = vec![
        string("general.architecture", "qwen2"),
        string("tokenizer.ggml.model", "gpt2"),
        string("tokenizer.ggml.pre", "llama-bpe"),
        strings("tokenizer.ggml.tokens", &tokens),
        numbers("tokenizer.ggml.token_type", &types),
        strings("tokenizer.ggml.merges", &["Ġ t", "h e", "Ġt he"]),
    ];
    let bytes = file(&entries, &[]);
    let g = GgufModel::open(&bytes).unwrap();
    let t = Tokenizer::from_gguf(&g.meta, &narrow, &maths()).unwrap();
    for s in ["over the moon", "  tabs\tand\r\nbreaks \n", "naïve 東京 🙂 don't 12345", "Ġ is a letter"] {
        assert_eq!(t.decode(&t.encode(s, false), false), s);
    }
    assert_eq!(t.encode(" the", false), vec![258]);
    // A special token stays apart from the text on both sides.
    let ids = t.encode("he<|end|>he", false);
    assert_eq!(ids, vec![257, 259, 257]);
    assert_eq!(t.decode(&ids, true), "hehe");
}

#[test]
fn a_text_without_tokens_reads_back_by_its_bytes() {
    let mut tokens = vec!["<unk>".to_string(), "▁".into(), "a".into(), "▁a".into()];
    tokens.extend((0..256).map(|b| format!("<0x{b:02X}>")));
    let tokens: Vec<&str> = tokens.iter().map(|s| s.as_str()).collect();
    let mut types = vec![2, 1, 1, 1];
    types.extend([6; 256]);
    let entries = vec![
        string("general.architecture", "llama"),
        string("tokenizer.ggml.model", "llama"),
        strings("tokenizer.ggml.tokens", &tokens),
        numbers("tokenizer.ggml.token_type", &types),
    ];
    let bytes = file(&entries, &[]);
    let g = GgufModel::open(&bytes).unwrap();
    let t = Tokenizer::from_gguf(&g.meta, &narrow, &maths()).unwrap();
    for s in ["a", "a b", "zwölf 🙂"] {
        assert_eq!(t.decode(&t.encode(s, false), false), format!(" {s}"));
        assert_eq!(t.encode(s, false), t.encode(&format!(" {s}"), false));
    }
    assert_eq!(t.encode("ab", false), vec![3, 4 + 0x62]);
}

#[test]
fn byte_level_pieces_follow_the_merges() {
    let entries = vec![
        string("general.architecture", "qwen2"),
        string("tokenizer.ggml.model", "gpt2"),
        string("tokenizer.ggml.pre", "qwen2"),
        strings("tokenizer.ggml.tokens", &["h", "e", "l", "o", "he", "ll", "hell", "Ġ", "Ã", "©"]),
        strings("tokenizer.ggml.merges", &["h e", "l l", "he ll"]),
    ];
    let bytes = file(&entries, &[]);
    let g = GgufModel::open(&bytes).unwrap();
    let t = Tokenizer::from_gguf(&g.meta, &narrow, &maths()).unwrap();
    assert_eq!(t.encode("hello", false), vec![6, 3]);
    assert_eq!(t.encode(" h", false), vec![7, 0]);
    assert_eq!(t.vocab.merge_rank("he", "ll"), Some(2));
    assert_eq!(t.vocab.merge_rank("ll", "he"), None);
    // The two bytes of one character.
    let ids = t.encode("é", false);
    assert_eq!(ids, vec![8, 9]);
    assert_eq!(t.decode(&ids, false), "é");
    let mut d = Detokenizer::default();
    assert_eq!(d.push(&t.token_bytes(8, false)), "");
    assert_eq!(d.push(&t.token_bytes(9, false)), "é");
    assert_eq!(d.flush(), "");
}

#[test]
fn a_push_gives_the_longest_complete_start() {
    let text = "aé\u{20ac}\u{1f600}z";
    let bytes = text.as_bytes();
    for step in 1..=bytes.len() {
        let mut d = Detokenizer::default();
        let mut given = String::new();
        let mut so_far = 0;
        for part in bytes.chunks(step) {
            given.push_str(&d.push(part));
            so_far += part.len();
            let complete = (0..=so_far).rev().find(|n| text.is_char_boundary(*n)).unwrap();
            assert_eq!(given, text[..complete]);
        }
        assert_eq!((given.as_str(), d.flush().as_str()), (text, ""));
    }
}

#[test]
fn a_file_without_vocabulary_has_no_tokenizer() {
    let bytes = file(&[string("general.architecture", "llama")], &[]);
    let g = GgufModel::open(&bytes).unwrap();
    let e = Tokenizer::from_gguf(&g.meta, &narrow, &maths()).err().unwrap();
    assert!(matches!(e, Error::MissingKey(_)), "{}", e.message());
}

#[test]
fn every_byte_has_a_character_and_comes_back() {
    let bytes = tiny();
    let g = GgufModel::open(&bytes).unwrap();
    let t = Tokenizer::from_gguf(&g.meta, &narrow, &maths()).unwrap();
    for b in 0..=255u8 {
        assert_eq!(t.vocab.char_to_byte(t.vocab.byte_to_char(b)), Some(b));
    }
    // No byte is written as white space.
    assert!((0..=255u8).all(|b| !t.vocab.byte_to_char(b).is_whitespace()));
    assert_eq!(t.vocab.byte_to_char(b' '), 'Ġ');
    assert_eq!(t.vocab.byte_to_char(b'a'), 'a');
}

#[test]
fn the_template_of_the_file_is_used_when_it_works() {
    let with = |src: &str| {
        let entries = vec![
            string("general.architecture", "llama"),
            string("tokenizer.ggml.model", "llama"),
            strings("tokenizer.ggml.tokens", &["<s>", "</s>", "<|im_start|>", "<|im_end|>"]),
            numbers("tokenizer.ggml.token_type", &[3, 3, 3, 3]),
            number("tokenizer.ggml.bos_token_id", 0),
            number("tokenizer.ggml.eos_token_id", 1),
            string("tokenizer.chat_template", src),
        ];
        let bytes = file(&entries, &[]);
        let g = GgufModel::open(&bytes).unwrap();
        Tokenizer::from_gguf(&g.meta, &narrow, &maths()).unwrap()
    };
    let said = vec![ChatMessage::new("user", "hi")];
    let t = with("{{ bos_token }}{% for m in messages %}[{{ m.role }}]{{ m.content }}{% endfor %}");
    assert!(t.template.uses_gguf_template());
    assert!(t.template.template_adds_bos);
    assert_eq!(t.render_chat(&said, None, &maths()), "<s>[user]hi");
    let t = with("{{ messages | frobnicate }}");
    assert!(!t.template.uses_gguf_template());
    assert_eq!(t.template.jinja_error.as_deref(), Some("unsupported filter `frobnicate`"));
    assert_eq!(t.template.builtin, Builtin::ChatMl);
    assert_eq!(
        t.render_chat(&said, None, &maths()),
        "<|im_start|>user\nhi<|im_end|>\n<|im_start|>assistant\n"
    );
    assert!(t.template.is_stop(3));
    let t = with("{{ enable_thinking }}");
    assert_eq!(t.render_chat(&said, Some(false), &maths()), "False");
}

// ----------------------------------------------------------------------------------- the model

#[test]
fn the_architecture_is_inferred() {
    let bytes = tiny();
    let g = GgufModel::open(&bytes).unwrap();
    let s = ArchSpec::infer(&g).unwrap();
    assert_eq!((s.n_layers, s.n_embd, s.n_heads, s.n_kv_heads, s.head_dim), (1, 8, 2, 1, 4));
    assert_eq!((s.n_vocab, s.n_ff, s.n_ctx_train), (8, 16, 64));
    assert!(s.gated_ffn && !s.tied_embeddings && s.moe.is_none());
    assert_eq!(s.n_embd_k(), 4);
    assert_eq!(s.n_embd_q(), 8);
}

#[test]
fn only_a_stack_has_experts() {
    let t = |dims: &[u64]| TensorInfo {
        name: "w".into(),
        dims: dims.to_vec(),
        dtype: DType::F32,
        offset: 0,
    };
    assert_eq!(t(&[8, 4]).n_expert(), 1);
    assert_eq!(t(&[8, 4, 6]).n_expert(), 6);
    assert_eq!(t(&[8, 4, 6, 2]).n_expert(), 1);
}

#[test]
fn a_hybrid_block_is_found_wherever_it_stands() {
    let bytes = file(
        &[
            string("general.architecture", "llama"),
            number("llama.block_count", 12),
            number("llama.embedding_length", 8),
            number("llama.attention.head_count", 2),
        ],
        &[
            dense("token_embd.weight", &[8, 8], wave),
            dense("blk.0.attn_q.weight", &[8, 8], wave),
            dense("blk.11.ssm_conv1d.weight", &[8, 8], wave),
        ],
    );
    let g = GgufModel::open(&bytes).unwrap();
    let e = Model::load(&g, &mut Binder::new(), 4).err().unwrap();
    assert!(e.message().contains("hybrid state-space / linear-attention"), "{}", e.message());
}

#[test]
fn what_is_no_transformer_is_refused() {
    let bytes = file(
        &[
            string("general.architecture", "mamba"),
            number("mamba.block_count", 1),
            number("mamba.embedding_length", 8),
            number("mamba.attention.head_count", 2),
        ],
        &[
            dense("token_embd.weight", &[8, 8], wave),
            dense("blk.0.ssm_conv1d.weight", &[8, 8], wave),
        ],
    );
    let g = GgufModel::open(&bytes).unwrap();
    let e = Model::load(&g, &mut Binder::new(), 4).err().unwrap();
    assert!(e.message().contains("hybrid state-space / linear-attention"), "{}", e.message());
}

/// A model that is loaded onto the processor.
fn loaded<'a>(g: &GgufModel<'a>, bytes: &'a [u8], batch: u32) -> (Model, CpuBackend<'a>) {
    let mut b = Binder::new();
    let (model, sizes) = Model::load(g, &mut b, batch).unwrap();
    let mut cpu = CpuBackend::new();
    let m = arith();
    for step in &b.steps {
        match *step {
            LoadStep::Vector { start, len, dtype, rows, cols } => {
                let part = &bytes[start as usize..(start + len) as usize];
                let n = (rows * cols) as usize;
                let x = m.dequantize_vec(dtype, part, n).unwrap();
                let id = cpu.allocate(n as u64 * 4);
                let raw: Vec<u8> = x.iter().flat_map(|w| w.to_le_bytes()).collect();
                cpu.write(id, 0, &raw).unwrap();
            }
            LoadStep::Matrix { start, len, dtype, rows, cols } => {
                let part = &bytes[start as usize..(start + len) as usize];
                cpu.upload_weight(&QuantView::new(part, dtype, rows as usize, cols as usize))
                    .unwrap();
            }
        }
    }
    for n in sizes {
        cpu.allocate(n);
    }
    (model, cpu)
}

type Cpu<'a> = Processor<'a, fn(FloatOp, u32, u32) -> u32>;

fn engine_on<'a, B: Backend>(bytes: &'a [u8], device: impl FnOnce(Cpu<'a>) -> B) -> Engine<B> {
    let g = GgufModel::open(bytes).unwrap();
    let (model, mut cpu) = loaded(&g, bytes, 4);
    let stride = model.spec.n_embd_k() as u32;
    let size = layer_bytes(16, 2, stride as usize, DType::F32).unwrap();
    let buffers: Vec<BufferId> = (0..2).map(|_| cpu.allocate(size)).collect();
    let kv = KvCache::new(&buffers, 16, 2, stride, DType::F32);
    let t = Tokenizer::from_gguf(&g.meta, &narrow, &maths()).unwrap();
    Engine::new(model, t, kv, 4, device(Processor::new(cpu, arith())))
}

fn engine(bytes: &[u8]) -> Engine<Cpu<'_>> {
    engine_on(bytes, |p| p)
}

/// A device that fails in one of its passes, counted from one, and else answers what it is told
/// to prefer.
struct Mock {
    passes: usize,
    fails_in: usize,
    prefers: Vec<usize>,
    read: usize,
    asked: Vec<(Vec<u32>, Vec<i32>)>,
}

impl Mock {
    fn new(fails_in: usize, prefers: &[usize]) -> Driver<Self> {
        let prefers = prefers.to_vec();
        Driver::new(Mock { passes: 0, fails_in, prefers, read: 0, asked: vec![] })
    }
}

impl Device for Mock {
    fn run(&mut self, ops: &Vec<Op>, tokens: &[u32], positions: &Vec<i32>) -> Result<(), Error> {
        assert!(!ops.is_empty());
        self.passes += 1;
        self.asked.push((tokens.to_vec(), positions.clone()));
        if self.passes == self.fails_in {
            return Err(Error::Shape("no more".into()));
        }
        Ok(())
    }

    fn read(&mut self, _: BufferId, n: u32) -> Result<Vec<u32>, Error> {
        let id = self.prefers[self.read];
        self.read += 1;
        Ok((0..n as usize).map(|i| (if i == id { 9.0f32 } else { 0.0 }).to_bits()).collect())
    }
}

fn asked(max_tokens: usize) -> GenerateOptions {
    GenerateOptions { max_tokens, params: SampleParams::greedy(), ..Default::default() }
}

#[test]
fn an_engine_reuses_what_is_cached() {
    let bytes = tiny();
    let mut e = engine(&bytes);
    let prompt = [1, 4, 5, 6, 4, 5];
    let (whole, n) = e.prefill(0, &prompt).unwrap();
    assert_eq!(n, 6);
    assert_eq!(e.session.resident[0], prompt);
    // The last token is run again for its logits, and nothing else is.
    let (again, n) = e.prefill(0, &prompt).unwrap();
    assert_eq!((again, n), (whole.clone(), 1));
    // Another sequence has a region of its own.
    e.prefill(1, &[1, 7, 7]).unwrap();
    assert_eq!(e.prefill(0, &prompt).unwrap().0, whole);
    assert_eq!(e.logits_for(&prompt).unwrap(), whole);
    // Token by token leads to the same.
    e.reset(0);
    e.prefill(0, &prompt[..3]).unwrap();
    let mut last = vec![];
    for (i, t) in prompt.iter().enumerate().skip(3) {
        last = e.decode_step(0, *t, i).unwrap();
    }
    assert_eq!(last, whole);
    assert_eq!(e.session.resident[0], prompt);
}

#[test]
fn an_engine_generates_until_it_has_to_stop() {
    let m = arith();
    let bytes = tiny();
    let mut e = engine(&bytes);
    let a = e.generate(&[1, 4], asked(3), &|_, _| true, &m).unwrap();
    assert_eq!(a.prompt_tokens, 2);
    let (n, reason) = (a.generated_tokens, a.reason);
    assert!(matches!(reason, StopReason::MaxTokens | StopReason::EndOfGeneration));
    assert!(n <= 3);
    // The same prompt again finds itself cached but for its last token, and says the same.
    let b = e.generate(&[1, 4], asked(3), &|_, _| true, &m).unwrap();
    assert_eq!((b.text, b.reason, b.generated_tokens), (a.text, reason, n));
    assert_eq!(b.prompt_tokens, 1);
    // Nothing runs beyond the context of sixteen tokens.
    let long: Vec<u32> = std::iter::once(1).chain([4, 5, 6].into_iter().cycle().take(13)).collect();
    let c = e.generate(&long, asked(99), &|_, _| true, &m).unwrap();
    assert!(matches!(c.reason, StopReason::ContextFull | StopReason::EndOfGeneration));
    assert!(e.session.resident[0].len() < 16);
    assert!(e.generate(&[], asked(1), &|_, _| true, &m).is_err());
    assert!(e.generate(&[1; 16], asked(1), &|_, _| true, &m).is_err());
    // A benchmark stops at the context, too.
    let (len, logits) = e.benchmark_prefill(12).unwrap();
    assert_eq!(len, 12);
    assert_eq!(e.benchmark_decode(len, 99, logits, &m).unwrap(), 3);
}

#[test]
fn requests_advance_in_rounds() {
    let m = arith();
    let bytes = tiny();
    let mut e = engine(&bytes);
    let mut s = Schedule::new(2);
    let job = |text: &str, max_tokens| Job {
        model: "tiny".into(),
        input: JobInput::Raw(text.into()),
        max_tokens,
        params: SampleParams::greedy(),
        stop_strings: vec![],
        stream: false,
    };
    s.take_in(&mut e, job("a", 1), None, &m, &maths()).unwrap();
    s.take_in(&mut e, job("ab", 3), None, &m, &maths()).unwrap();
    let busy = s.take_in(&mut e, job("a", 1), None, &m, &maths()).unwrap_err();
    assert!(busy.starts_with("every sequence slot is busy"), "{busy}");
    assert_eq!(s.slots.iter().map(|x| x.seq).collect::<Vec<_>>(), [0, 1]);
    let mut ended = vec![];
    for _ in 0..4 {
        let (slots, ends) = s.advance(&mut e, &|_, _| true, &m);
        assert_eq!(slots.len(), ends.len());
        for (slot, (i, _)) in slots.into_iter().zip(ends.into_iter().rev()) {
            assert!(i < 2);
            ended.push((slot.seq, slot.reply.generation.generated));
        }
    }
    assert!(s.is_idle());
    assert_eq!(ended.len(), 2);
    assert_eq!(ended[0].0, 0);
    // What was said in company is what is said alone.
    let prompt = e.tokenizer.tokenize_prompt("ab");
    let alone = e.generate(&prompt, asked(3), &|_, _| true, &m).unwrap();
    assert_eq!(ended[1], (1, alone.generated_tokens));
    let long = "a".repeat(40);
    let why = s.take_in(&mut e, job(&long, 1), None, &m, &maths()).unwrap_err();
    assert!(why.ends_with("tokens but the context is 16"), "{why}");
    assert!(s.is_idle());
}

#[test]
fn a_prompt_that_fails_keeps_what_it_shared() {
    let bytes = tiny();
    // Chunks of four tokens: the second prompt runs as [6, 7, 4, 5] and [6, 7], and the last
    // pass fails.
    let mut e = engine_on(&bytes, |_| Mock::new(3, &[4, 4]));
    e.prefill(0, &[1, 4, 5]).unwrap();
    let why = e.prefill(0, &[1, 4, 6, 7, 4, 5, 6, 7]).unwrap_err();
    assert_eq!(why.message(), "shape error: no more");
    assert_eq!(e.session.resident[0], [1, 4]);
    let asked: Vec<(Vec<u32>, Vec<i32>)> = vec![
        (vec![1, 4, 5], vec![0, 1, 2]),
        (vec![6, 7, 4, 5], vec![2, 3, 4, 5]),
        (vec![6, 7], vec![6, 7]),
    ];
    assert_eq!(e.device.device.asked, asked);
    // The logits are those of the last chunk.
    let mut e = engine_on(&bytes, |_| Mock::new(0, &[4, 6]));
    let (logits, n) = e.prefill(0, &[1, 4, 5, 6, 7]).unwrap();
    assert_eq!((n, logits[6]), (5, 9.0f32.to_bits()));
}

#[test]
fn a_step_is_noted_where_it_ran() {
    let bytes = tiny();
    let mut e = engine_on(&bytes, |_| Mock::new(5, &[4, 4, 4, 4]));
    e.prefill(0, &[1, 4, 5]).unwrap();
    e.decode_step(0, 6, 3).unwrap();
    assert_eq!(e.session.resident[0], [1, 4, 5, 6]);
    // An earlier position is overwritten, and what stood behind it is no longer known.
    e.decode_step(0, 7, 1).unwrap();
    assert_eq!(e.session.resident[0], [1, 7]);
    // Beyond the resident tokens nothing is known to lie in between.
    e.decode_step(0, 7, 9).unwrap();
    assert_eq!(e.session.resident[0], [1, 7]);
    assert!(e.decode_step(0, 5, 1).is_err());
    assert_eq!(e.session.resident[0], [1]);
}

#[test]
fn a_reply_is_the_text_that_was_handed_out() {
    let bytes = tiny();
    let m = arith();
    let told = std::cell::RefCell::new(String::new());
    let tell = |s: &str, _: u32| {
        assert!(!s.is_empty());
        told.borrow_mut().push_str(s);
        true
    };
    // The words of a stop string are handed out, and taken off the answer.
    let mut e = engine_on(&bytes, |_| Mock::new(0, &[4, 5, 4]));
    let opts = GenerateOptions { stop_strings: vec!["ba".into()], ..asked(9) };
    let a = e.generate(&[1], opts, &tell, &m).unwrap();
    assert_eq!((a.text.as_str(), a.reason), ("a", StopReason::StopString));
    assert_eq!(told.borrow().as_str(), "aba");
    assert_eq!(e.session.resident[0], [1, 4, 5]);
    // Whoever refuses more is not asked again.
    let calls = std::cell::Cell::new(0);
    let mut e = engine_on(&bytes, |_| Mock::new(0, &[4, 5, 4]));
    let refuse = |_: &str, token: u32| {
        calls.set(calls.get() + 1);
        token != 5
    };
    let a = e.generate(&[1], asked(9), &refuse, &m).unwrap();
    assert_eq!((a.text.as_str(), a.reason, calls.get()), ("ab", StopReason::Cancelled, 2));
    // A device that fails ends the reply with its error.
    let mut e = engine_on(&bytes, |_| Mock::new(2, &[4, 5]));
    let why = e.generate(&[1], asked(9), &|_, _| true, &m).unwrap_err();
    assert_eq!(why.message(), "shape error: no more");
    assert_eq!(e.session.resident[0], [1]);
}

#[test]
fn a_round_tells_what_was_said_and_what_failed() {
    let bytes = tiny();
    let m = arith();
    let mut e = engine_on(&bytes, |_| Mock::new(3, &[4, 5]));
    let mut s = Schedule::new(2);
    let job = Job {
        model: "tiny".into(),
        input: JobInput::Raw("a".into()),
        max_tokens: 9,
        params: SampleParams::greedy(),
        stop_strings: vec![],
        stream: false,
    };
    s.take_in(&mut e, job, None, &m, &maths()).unwrap();
    let n = s.slots[0].prompt_tokens;
    let told = std::cell::RefCell::new(vec![]);
    let tell = |i: usize, what: Event| {
        told.borrow_mut().push(match what {
            Event::Chunk(s) => (i, s),
            Event::Failed(s) => (i, format!("failed: {s}")),
            _ => unreachable!(),
        });
        true
    };
    let (slots, ends) = s.advance(&mut e, &tell, &m);
    assert!(slots.is_empty() && ends.is_empty());
    assert_eq!(s.slots[0].logits[5], 9.0f32.to_bits());
    assert_eq!(e.session.resident[0].len(), n + 1);
    let (slots, ends) = s.advance(&mut e, &tell, &m);
    assert_eq!(ends, [(0, StopReason::Cancelled)]);
    assert_eq!(slots[0].reply.generation.text, "ab");
    assert_eq!(e.session.resident[0].len(), n + 1);
    let want: Vec<(usize, String)> =
        vec![(0, "a".into()), (0, "b".into()), (0, "failed: shape error: no more".into())];
    assert_eq!(*told.borrow(), want);
    assert_eq!(e.device.device.asked[1], (vec![4], vec![n as i32]));
    assert!(s.is_idle());
}

#[test]
fn what_stands_before_a_fault_is_run() {
    // Without a feed-forward tensor the operations before it are run, and then it is missed.
    let bytes = tiny_without("blk.0.ffn_up.weight");
    let g = GgufModel::open(&bytes).unwrap();
    let (model, _) = loaded(&g, &bytes, 4);
    let kv = KvCache::new(&vec![BufferId(90), BufferId(91)], 16, 2, 4, DType::F32);
    let x = model.forward(1, &kv.views(0), 0, 1).unwrap();
    assert_eq!(x.fault.as_ref().unwrap().message(), "missing tensor: blk.0.ffn_up.weight");
    assert!(matches!(x.ops[0], Op::GetRows { .. }));
    assert!(x.ops.iter().any(|op| matches!(op, Op::KvWrite { .. })));
    assert!(matches!(x.ops.last(), Some(Op::Norm { .. })));
    assert!(!x.ops.iter().any(|op| matches!(op, Op::Glu { .. } | Op::Submit)));
    let mut e = engine_on(&bytes, |_| Mock::new(0, &[]));
    let why = e.prefill(0, &[1, 4]).unwrap_err();
    assert_eq!(why.message(), "missing tensor: blk.0.ffn_up.weight");
    assert_eq!(e.device.device.asked.len(), 1);
    // A device that fails on the way is heard first.
    let mut e = engine_on(&bytes, |_| Mock::new(1, &[]));
    assert_eq!(e.prefill(0, &[1, 4]).unwrap_err().message(), "shape error: no more");
    // So is a cache that has come to its end.
    let mut e = engine(&bytes);
    let why = e.decode_step(1, 4, 16).unwrap_err();
    assert_eq!(why.message(), "shape error: kv slot 32 is past the end of the cache");
    let bytes = tiny();
    let mut e = engine(&bytes);
    let why = e.decode_step(1, 4, 16).unwrap_err();
    assert_eq!(why.message(), "shape error: kv slot 32 is past the end of the cache");
    // What stands before the cache was carried out: the activations are no longer zero.
    let x = e.model.scratch.x;
    assert!(e.device.read(x, 8).unwrap().iter().any(|w| *w != 0));
}

#[test]
fn the_processor_refuses_what_its_buffers_do_not_fit() {
    let bytes = tiny();
    let mut e = engine(&bytes);
    let short = e.device.cpu.allocate(8);
    let norm = |dim: u32| {
        let cfg = NormCfg::rms(dim, 1, Scalar::Of(Real::Whole(0)));
        vec![Op::Norm { dst: short, src: short, weight: None, cfg }]
    };
    let why = e.device.run(&norm(3), &[1], &vec![0]).unwrap_err();
    assert_eq!(why.message(), "shape error: buffers do not fit the operation");
    assert_eq!(e.device.read(short, 2).unwrap(), [0, 0]);
    e.device.cpu.write(short, 0, &1.0f32.to_le_bytes()).unwrap();
    e.device.cpu.write(short, 4, &1.0f32.to_le_bytes()).unwrap();
    e.device.run(&norm(2), &[1], &vec![0]).unwrap();
    assert_eq!(e.device.read(short, 1).unwrap(), [1.0f32.to_bits()]);
    let why = e.device.read(short, 3).unwrap_err();
    assert_eq!(why.message(), "shape error: read of 12 bytes at 0 exceeds buffer of 8");
    let why = e.device.read(BufferId(99), 1).unwrap_err();
    assert_eq!(why.message(), "cpu backend: buffer 99 is not allocated");
}

fn logits_in_chunks(bytes: &[u8], chunks: &[&[u32]]) -> Vec<f32> {
    let g = GgufModel::open(bytes).unwrap();
    let m = arith();
    let (model, mut cpu) = loaded(&g, bytes, 4);
    let stride = model.spec.n_embd_k() as u32;
    let size = layer_bytes(64, 1, stride as usize, DType::F32).unwrap();
    let buffers: Vec<BufferId> = (0..2).map(|_| cpu.allocate(size)).collect();
    let kv = KvCache::new(&buffers, 64, 1, stride, DType::F32);
    let views = kv.views(0);
    let mut pos = 0u32;
    let mut logits = vec![];
    for c in chunks {
        let end = pos + c.len() as u32;
        let positions: Vec<i32> = (pos as i32..end as i32).collect();
        let ops = model.forward(c.len(), &views, pos, end).unwrap().ops;
        assert!(ops.iter().all(|op| cpu.is_ready(&m, op, c)));
        logits = cpu.forward(&m, &model, c, &positions, &views, pos, end).unwrap();
        pos = end;
    }
    assert_eq!(logits, cpu.contents(model.scratch.logits.0)[..8]);
    floats(&logits)
}

#[test]
fn a_pass_does_not_depend_on_how_it_is_cut() {
    let bytes = tiny();
    let whole = logits_in_chunks(&bytes, &[&[1, 4, 5, 6]]);
    let cut = logits_in_chunks(&bytes, &[&[1, 4], &[5], &[6]]);
    assert!(whole.iter().all(|x| x.is_finite()));
    assert!(whole.iter().any(|x| x.abs() > 1e-3));
    assert_eq!(whole, cut);
    assert_ne!(whole, logits_in_chunks(&bytes, &[&[1, 4, 6, 5]]));
}

#[test]
fn a_batch_beyond_what_was_loaded_is_refused() {
    let bytes = tiny();
    let g = GgufModel::open(&bytes).unwrap();
    let (model, _) = Model::load(&g, &mut Binder::new(), 4).unwrap();
    assert_eq!(model.max_batch(), 4);
    let e = model.forward(5, &[], 0, 5).err().unwrap();
    assert_eq!(
        e.message(),
        "shape error: batch of 5 exceeds the 4 this model was loaded for"
    );
    assert!(model.forward(0, &[], 0, 0).is_err());
    assert!(model.forward(1, &[], 0, 1).is_err());
}

#[test]
fn a_reply_is_drawn_token_by_token() {
    let bytes = tiny();
    let g = GgufModel::open(&bytes).unwrap();
    let t = Tokenizer::from_gguf(&g.meta, &narrow, &maths()).unwrap();
    let m = arith();
    let prefer = |id: usize| -> Vec<u32> {
        (0..8).map(|i| (if i == id { 9.0f32 } else { 0.0 }).to_bits()).collect()
    };
    let p = SampleParams::greedy();
    let mut r = Reply::start(&[1, 4], 16, 9, p, vec!["b".into()], &m).unwrap();
    assert_eq!(r.sampler.recent, vec![4, 1]);
    assert!(matches!(r.draw(&t, &mut prefer(4), &m), Turn::Say(4, s) if s == "a"));
    assert_eq!(r.generation.decide(true, true), Step::Run(2));
    // The stop string is taken off the text.
    assert!(matches!(r.draw(&t, &mut prefer(5), &m), Turn::Say(5, s) if s == "b"));
    assert_eq!(r.generation.decide(true, true), Step::Stop(StopReason::StopString));
    assert_eq!(r.generation.text, "a");
    assert_eq!(r.sampler.recent, vec![4, 1, 4, 5]);
    // The end-of-text token ends an answer and is neither said nor remembered.
    let mut r = Reply::start(&[1], 16, 9, p, vec![], &m).unwrap();
    assert!(matches!(r.draw(&t, &mut prefer(2), &m), Turn::End));
    assert_eq!(r.sampler.recent, vec![1]);
    assert_eq!(r.generation.text, "");
    assert!(Reply::start(&[], 16, 9, p, vec![], &m).is_err());
    assert!(Reply::start(&[1, 1], 2, 9, p, vec![], &m).is_err());
}

// ---------------------------------------------------------------------------------- the report

#[test]
fn a_report_says_what_was_concluded() {
    let bytes = tiny();
    let g = GgufModel::open(&bytes).unwrap();
    let t = Tokenizer::from_gguf(&g.meta, &narrow, &maths());
    let args = InspectArgs { model: "tiny.gguf".into(), tensors: true, metadata: true };
    let lines = inspect(&args, &g, &t, &Printer { show }, &arith(), &maths());
    assert_eq!(lines[0], "file");
    assert_eq!(lines[1], "  path            tiny.gguf");
    assert_eq!(lines[2], "  gguf version    3");
    assert_eq!(lines[3], "  tensors         12");
    assert_eq!(lines[4], "  metadata keys   15");
    let has = |s: &str| assert!(lines.iter().any(|l| l == s), "no line {s:?} in {lines:#?}");
    has("  weights         0.00 GiB, mostly F32");
    has("  quantizations   F32 x12 (0 MiB)");
    has("\narchitecture (inferred)");
    has("  declared        llama");
    has("  heads           2 q, 1 kv, head_dim 4");
    has("  norm            Rms, eps 0.00001");
    has("  activation      Silu, gated true");
    has("  feed-forward    16");
    has("\ntokenizer");
    has("  kind            Spm");
    has("  tokens          8");
    has("  merges          0");
    has("  bos/eos         Some(1) / [2] (add_bos true)");
    has("\nmetadata");
    has("  general.name = \"tiny\"");
    has("  tokenizer.ggml.tokens = [\"<unk>\", \"<s>\", \"</s>\", \"▁\", \"a\", \"b\", ... 8 items]");
    has("\ntensors");
    has("  blk.0.ffn_down.weight                    F32              16 x 8       0.00 MiB");
}

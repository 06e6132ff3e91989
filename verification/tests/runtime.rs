use gguf_rs::device::BufferId;
use gguf_rs::dtype::DType;
use gguf_rs::runtime::device::{Attempt, DeviceSelector, Opening};
use gguf_rs::runtime::generate::{Generation, Step, StopReason};
use gguf_rs::runtime::kv::{layer_bytes, KvCache};
use gguf_rs::runtime::reply::GenerateOptions;
use gguf_rs::runtime::session::{
    benchmark_prompt, check_prompt, recent_tokens, EngineOptions, Session,
};
use gguf_rs::slots::Slots;

#[test]
fn devices_are_named_and_read_back() {
    for s in ["auto", "cpu", "cuda", "cuda:1", "vulkan", "vulkan:3"] {
        assert_eq!(DeviceSelector::parse(s).unwrap().text(), s);
    }
    // Neither case nor white space around the name matters.
    assert_eq!(DeviceSelector::parse(" CUDA:1 ").unwrap().text(), "cuda:1");
    assert_eq!(DeviceSelector::parse("\tVulkan\n").unwrap().text(), "vulkan");
    assert!(DeviceSelector::parse("tpu").is_err());
    assert!(DeviceSelector::parse("cuda:x").is_err());
}

#[test]
fn opening_falls_back_towards_the_processor() {
    let (mut o, a) = Opening::start(DeviceSelector::Auto);
    assert!(matches!(a, Attempt::Cuda(0)));
    let a = o.failed(a, "cuda unavailable: no driver").unwrap();
    assert!(matches!(a, Attempt::Vulkan(0)));
    let a = o.failed(a, "no loader").unwrap();
    assert!(matches!(a, Attempt::Cpu));
    assert!(!o.opened(a).is_empty());
    let (mut o, a) = Opening::start(DeviceSelector::Cuda(Some(2)));
    assert!(matches!(a, Attempt::Cuda(2)));
    assert!(o.failed(a, "gone").is_err());
}

#[test]
fn a_prefix_in_the_cache_is_not_run_again() {
    let mut s = Session::new(1, 4);
    let first: Vec<u32> = (0..6).collect();
    let plan: Vec<(usize, usize)> = s.plan(0, &first).iter().map(|c| (c.start, c.end)).collect();
    assert_eq!(plan, vec![(0, 4), (4, 6)]);
    s.ran(0, &first);
    s.push(0, 9, 6);
    // A token that follows nothing resident is not noted.
    s.push(0, 9, 12);
    let more = [0, 1, 2, 3, 4, 5, 9, 7];
    let plan: Vec<(usize, usize)> = s.plan(0, &more).iter().map(|c| (c.start, c.end)).collect();
    assert_eq!(plan, vec![(7, 8)]);
    // The last token is always run, since its logits are wanted.
    let plan: Vec<(usize, usize)> = s.plan(0, &first).iter().map(|c| (c.start, c.end)).collect();
    assert_eq!(plan, vec![(5, 6)]);
    s.reset(0);
    assert_eq!(s.plan(0, &first).len(), 2);
}

#[test]
fn prompts_must_fit() {
    assert!(check_prompt(10, 11).is_ok());
    assert_eq!(
        check_prompt(0, 11).unwrap_err().message(),
        "shape error: cannot generate from an empty prompt"
    );
    assert_eq!(
        check_prompt(11, 11).unwrap_err().message(),
        "shape error: prompt is 11 tokens but the context is 11; raise --ctx or shorten the prompt"
    );
}

#[test]
fn a_plan_leaves_the_prompt_in_the_cache() {
    let mut s = Session::new(1, 3);
    let mut cache = vec![None; 16];
    for prompt in [vec![1u32, 2, 3, 4], vec![1, 2, 7, 8, 9, 10, 11], vec![5], vec![5, 6, 7, 8, 9]] {
        for c in s.plan(0, &prompt) {
            for i in c.start..c.end {
                cache[i] = Some(prompt[i]);
            }
        }
        s.ran(0, &prompt);
        // One token more, run behind the prompt.
        cache[prompt.len()] = Some(6);
        s.push(0, 6, prompt.len());
        for (i, t) in s.resident[0].iter().enumerate() {
            assert_eq!(cache[i], Some(*t));
        }
        // A token in the middle overwrites what stood there.
        s.keep(0, 1);
        cache[1] = Some(4);
        s.push(0, 4, 1);
        assert_eq!(s.resident[0], [prompt[0], 4]);
    }
}

#[test]
fn generation_has_defaults() {
    let o = GenerateOptions::default();
    assert_eq!((o.max_tokens, o.seq, o.stop_strings.len()), (512, 0, 0));
    assert_eq!(o.params.top_k, 40);
}

#[test]
fn options_are_bounded() {
    let mut o = EngineOptions::default();
    assert_eq!((o.batch_size(), o.context(100_000), o.context(2), o.sequences()), (256, 8192, 512, 1));
    o.batch = 0;
    o.n_ctx = 77;
    o.n_seq = 0;
    assert_eq!((o.batch_size(), o.context(4096), o.sequences()), (1, 77, 1));
    o.batch = 10_000;
    assert_eq!(o.batch_size(), 4096);
}

#[test]
fn recent_tokens_come_last_first() {
    assert_eq!(recent_tokens(&[1, 2, 3, 4], 2), vec![4, 3]);
    assert_eq!(recent_tokens(&[1, 2], 9), vec![2, 1]);
    assert_eq!(benchmark_prompt(None, 3, 10_000), vec![1, 7919, 5838]);
    assert_eq!(benchmark_prompt(Some(5), 2, 7), vec![5, 2]);
}

#[test]
fn the_cache_is_cut_into_regions() {
    assert_eq!(layer_bytes(10, 2, 4, DType::F16), Some(160));
    let ids: Vec<BufferId> = (0..4).map(BufferId).collect();
    let mut kv = KvCache::new(&ids, 10, 2, 4, DType::F16);
    assert_eq!((kv.n_seq(), kv.n_ctx(), kv.bytes()), (2, 10, 640));
    let v = kv.views(1);
    assert_eq!(v.len(), 2);
    assert_eq!((v[0].base, v[0].stride), (10, 4));
    assert_ne!(v[0].k, v[0].v);
    assert_eq!(kv.free().len(), 4);
    assert!(kv.free().is_empty());
}

#[test]
fn generation_stops_for_the_first_reason() {
    let mut g = Generation::new(3, 100, 10, vec!["END".into()]);
    let said = g.hear(b"so EN");
    assert_eq!(said, "so EN");
    assert!(matches!(g.decide(true, true), Step::Run(3)));
    assert_eq!(g.hear(b"D"), "D");
    assert!(matches!(g.decide(true, true), Step::Stop(StopReason::StopString)));
    assert_eq!(g.finish(), "");
    assert_eq!(g.text, "so ");

    let mut g = Generation::new(3, 100, 1, vec![]);
    g.hear(b"x");
    assert!(matches!(g.decide(true, false), Step::Stop(StopReason::Cancelled)));
    let mut g = Generation::new(3, 100, 1, vec![]);
    g.hear(b"x");
    assert!(matches!(g.decide(true, true), Step::Stop(StopReason::MaxTokens)));
    let mut g = Generation::new(3, 4, 9, vec![]);
    g.hear(b"x");
    assert!(matches!(g.decide(true, true), Step::Stop(StopReason::ContextFull)));
    let mut g = Generation::new(3, 50, 9, vec![]);
    assert_eq!(g.hear(&[0xc3]), "");
    assert!(matches!(g.decide(false, true), Step::Run(_)));
    assert_eq!(g.finish(), "\u{fffd}");
}

#[test]
fn freed_numbers_are_given_out_again() {
    let mut s: Slots<char> = Slots::new();
    assert_eq!((s.place('a'), s.place('b'), s.place('c')), (0, 1, 2));
    assert_eq!(s.remove(1), Some('b'));
    assert_eq!(s.remove(1), None);
    assert_eq!(s.place('d'), 1);
    // The last one that became free is given out first.
    s.remove(2);
    s.remove(0);
    assert_eq!((s.remove(7), s.place('a'), s.place('c'), s.place('e')), (None, 0, 2, 3));
    assert_eq!(s.exchange(0, 'z'), 'a');
    assert_eq!(s.get(0), Some(&'z'));
    assert_eq!(s.get(9), None);
}

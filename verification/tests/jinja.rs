use gguf_rs::jinja::eval::Template;
use gguf_rs::jinja::number::{Maths, NumOp};
use gguf_rs::jinja::value::{insert, Entry, Value};

/// Double-precision arithmetic on bits.
fn double(op: NumOp, a: u64, b: u64) -> u64 {
    let x = f64::from_bits(a);
    let y = f64::from_bits(b);
    match op {
        NumOp::Add => (x + y).to_bits(),
        NumOp::Sub => (x - y).to_bits(),
        NumOp::Mul => (x * y).to_bits(),
        NumOp::Div => (x / y).to_bits(),
        NumOp::FloorDiv => (x / y).floor().to_bits(),
        NumOp::Rem => (x % y).to_bits(),
        NumOp::Trunc => x.trunc().to_bits(),
        NumOp::FromWhole => (a as i64 as f64).to_bits(),
        NumOp::ToInt => x as i64 as u64,
    }
}

fn read_number(s: &str) -> Option<u64> {
    s.parse::<f64>().ok().map(|x| x.to_bits())
}

fn write_number(b: u64, debug: bool) -> String {
    let x = f64::from_bits(b);
    if debug {
        format!("{x:?}")
    } else {
        format!("{x}")
    }
}

type Numbers = Maths<fn(NumOp, u64, u64) -> u64, fn(&str) -> Option<u64>, fn(u64, bool) -> String>;

fn maths() -> Numbers {
    Maths { arith: double, parse: read_number, write: write_number }
}

fn msgs(pairs: &[(&str, &str)]) -> Value {
    Value::List(
        pairs
            .iter()
            .map(|(r, c)| {
                let mut m: Vec<Entry> = Vec::new();
                insert(&mut m, "role".into(), Value::string(r));
                insert(&mut m, "content".into(), Value::string(c));
                Value::Object(m)
            })
            .collect(),
    )
}

fn ctx(pairs: &[(&str, &str)], gen: bool) -> Value {
    let mut m: Vec<Entry> = Vec::new();
    insert(&mut m, "messages".into(), msgs(pairs));
    insert(&mut m, "add_generation_prompt".into(), Value::Bool(gen));
    insert(&mut m, "bos_token".into(), Value::string("<s>"));
    insert(&mut m, "eos_token".into(), Value::string("</s>"));
    Value::Object(m)
}

fn render(src: &str, ctx: &Value) -> Result<String, String> {
    Template::parse(src, &maths()).unwrap().render(ctx, &maths())
}

#[test]
fn renders_chatml() {
    let src = "{% for message in messages %}{{'<|im_start|>' + message['role'] + '\\n' + \
               message['content'] + '<|im_end|>' + '\\n'}}{% endfor %}\
               {% if add_generation_prompt %}{{ '<|im_start|>assistant\\n' }}{% endif %}";
    let out = render(src, &ctx(&[("user", "hi")], true)).unwrap();
    assert_eq!(out, "<|im_start|>user\nhi<|im_end|>\n<|im_start|>assistant\n");
}

#[test]
fn handles_whitespace_control_and_loop_vars() {
    let src = "{%- for m in messages -%}\n  {{ loop.index }}:{{ m.content }}\n{%- endfor -%}";
    let out = render(src, &ctx(&[("user", "a"), ("assistant", "b")], false)).unwrap();
    assert_eq!(out, "1:a2:b");
    // Any white space goes, not only that of ASCII.
    let src = "{% if true -%}\u{2003}\u{a0}\u{3000} x\u{2028}{%- endif %}";
    assert_eq!(render(src, &ctx(&[], false)).unwrap(), "x");
}

#[test]
fn supports_namespace_mutation() {
    let src = "{% set ns = namespace(n=0) %}{% for m in messages %}\
               {% set ns.n = ns.n + 1 %}{% endfor %}{{ ns.n }}";
    let out = render(src, &ctx(&[("user", "a"), ("assistant", "b")], false)).unwrap();
    assert_eq!(out, "2");
}

#[test]
fn gemma_style_role_mapping() {
    let src = "{% for message in messages %}{% if message['role'] == 'assistant' %}\
               {% set role = 'model' %}{% else %}{% set role = message['role'] %}{% endif %}\
               {{ '<start_of_turn>' + role + '\\n' + message['content'] | trim + '<end_of_turn>\\n' }}\
               {% endfor %}";
    let out = render(src, &ctx(&[("user", " hi "), ("assistant", "yo")], false)).unwrap();
    assert_eq!(
        out,
        "<start_of_turn>user\nhi<end_of_turn>\n<start_of_turn>model\nyo<end_of_turn>\n"
    );
}

#[test]
fn raise_exception_surfaces_as_an_error() {
    let src = "{{ raise_exception('nope') }}";
    assert_eq!(render(src, &ctx(&[], false)), Err("nope".into()));
}

#[test]
fn conditionals_and_tests() {
    let src = "{% if tools is defined and tools %}T{% elif messages %}M{% else %}E{% endif %}";
    assert_eq!(render(src, &ctx(&[("user", "x")], false)).unwrap(), "M");
}

#[test]
fn numbers_are_computed_and_written() {
    let none = ctx(&[], false);
    assert_eq!(render("{{ 7 // 2 }} {{ 7 % 4 }} {{ 1 / 4 }} {{ 2 * 3 - 1 }}", &none).unwrap(), "3 3 0.25 5");
    assert_eq!(render("{{ 'abc' | upper }}{{ 'DEF' | lower }}", &none).unwrap(), "ABCdef");
}

#[test]
fn slices_and_lookups() {
    let c = ctx(&[("user", "a"), ("assistant", "b"), ("user", "c")], false);
    assert_eq!(render("{{ messages[1:] | length }}{{ messages[-1].content }}", &c).unwrap(), "2c");
    assert_eq!(render("{{ messages[0]['role'] }}{{ missing }}", &c).unwrap(), "user");
}

fn refusal(src: &str) -> String {
    match Template::parse(src, &maths()) {
        Ok(t) => t.render(&ctx(&[("user", "x")], false), &maths()).unwrap_err(),
        Err(e) => e,
    }
}

#[test]
fn faults_are_named() {
    assert_eq!(refusal("{{ x"), "unterminated template tag");
    assert_eq!(refusal("{{ 'x }}"), "unterminated string in expression");
    assert_eq!(refusal("{% for x %}{% endfor %}"), "for loop without `in`");
    assert_eq!(refusal("{{ messages[] }}"), "unexpected Op(\"]\") in expression");
    assert_eq!(refusal("{{ 'a' | frobnicate }}"), "unsupported filter `frobnicate`");
    assert_eq!(refusal("{{ 'a'.frobnicate() }}"), "unsupported method `.frobnicate()`");
    assert_eq!(refusal("{{ frobnicate() }}"), "unsupported function `frobnicate()`");
    assert_eq!(refusal("{{ 1 is frobnicate }}"), "unsupported test `is frobnicate`");
}

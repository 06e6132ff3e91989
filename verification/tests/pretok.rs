use gguf_rs::tokenizer::pretok::{rules_for, split};

#[test]
fn gpt2_splits_like_the_reference_pattern() {
    assert_eq!(split("default", "Hello world"), vec!["Hello", " world"]);
    assert_eq!(split("default", "it's"), vec!["it", "'s"]);
    assert_eq!(split("default", "a  b"), vec!["a", " ", " b"]);
    assert_eq!(split("default", "x=1234"), vec!["x", "=", "1234"]);
}

#[test]
fn qwen_splits_digits_singly_and_llama3_in_threes() {
    assert_eq!(split("qwen2", "12345"), vec!["1", "2", "3", "4", "5"]);
    assert_eq!(split("llama3", "12345"), vec!["123", "45"]);
}

#[test]
fn newlines_stay_with_their_run() {
    assert_eq!(split("qwen2", "a\n\nb"), vec!["a", "\n\n", "b"]);
}

#[test]
fn every_input_is_covered_exactly_once() {
    for pre in ["default", "llama3", "qwen2"] {
        for s in ["", "  ", "\n", "héllo wörld 42!", "a'B'c", "\t\tx", "]]>", "🙂 ok"] {
            let joined: String = split(pre, s).concat();
            assert_eq!(joined, s, "{pre} lost or duplicated text in {s:?}");
        }
    }
}

#[test]
fn contractions_in_capitals_depend_on_the_rules() {
    assert!(rules_for("llama3").ci_contractions);
    assert_eq!(split("llama3", "IT'S"), vec!["IT", "'S"]);
    assert!(!rules_for("default").ci_contractions);
    assert_eq!(split("default", "IT'S"), vec!["IT", "'", "S"]);
}

use text_duplicator::engine::{generate, parse_sequence, render_copy, AppBody, CompiledGenerator};
use text_duplicator::parser::{DupError, Generator};

fn pair(a: &str, b: &str) -> (String, String) {
    (String::from(a), String::from(b))
}

fn gen(placeholder: &str, g: Generator) -> CompiledGenerator {
    CompiledGenerator { placeholder: String::from(placeholder), gen: g }
}

#[test]
fn counter_substitution() {
    let gens = vec![gen("[x]", Generator::FromStart { a: 1 })];
    assert_eq!(generate("[x]", 3, &gens), "123");
}

#[test]
fn no_generators_repeats_template() {
    let gens: Vec<CompiledGenerator> = Vec::new();
    assert_eq!(generate("ab", 4, &gens), "abababab");
    assert_eq!(generate("", 4, &gens), "");
}

#[test]
fn zero_copies_empty_output() {
    let gens = vec![gen("[x]", Generator::FromStart { a: 1 })];
    assert_eq!(generate("[x]", 0, &gens), "");
}

#[test]
fn streaming_matches_buffered() {
    let gens = vec![
        gen("[i]", Generator::FromStart { a: 0 }),
        gen("[c]", Generator::Cycle { a: 1, b: 3 }),
    ];
    let template = "line [i]: [c]\n";
    let buffered = generate(template, 7, &gens);
    let mut streamed = String::new();
    let mut i: u32 = 0;
    while i < 7 {
        streamed += &render_copy(template, &gens, i);
        i += 1;
    }
    assert_eq!(buffered, streamed);
}

#[test]
fn replacement_is_literal_and_leftmost() {
    let gens = vec![gen("aa", Generator::FromStart { a: 9 })];
    // "aaa" holds one leftmost occurrence of "aa"; the trailing "a" stays
    assert_eq!(generate("aaa", 1, &gens), "9a");
}

#[test]
fn substitution_is_sequential_across_pairs() {
    // the first pair rewrites "a" to "1"; the second then rewrites that "1"
    let gens = vec![
        gen("a", Generator::FromStart { a: 1 }),
        gen("1", Generator::FromStart { a: 5 }),
    ];
    assert_eq!(generate("a", 1, &gens), "5");
}

#[test]
fn negative_values_are_formatted_with_sign() {
    let gens = vec![gen("[x]", Generator::FromStart { a: -2 })];
    assert_eq!(generate("[x] ", 4, &gens), "-2 -1 0 1 ");
}

#[test]
fn unicode_template_text() {
    let gens = vec![gen("№", Generator::FromStart { a: 1 })];
    assert_eq!(generate("célula №;", 2, &gens), "célula 1;célula 2;");
}

#[test]
fn empty_pair_fields_are_inert() {
    let pairs = vec![pair("", "1.."), pair("x", ""), pair("", "")];
    let gens = parse_sequence(&pairs, 5).unwrap();
    assert_eq!(gens.len(), 0);
}

#[test]
fn mixed_pairs_compile_in_order() {
    let pairs = vec![pair("", ""), pair("[a]", "1.."), pair("[b]", "..5")];
    let gens = parse_sequence(&pairs, 3).unwrap();
    assert_eq!(gens.len(), 2);
    assert_eq!(gens[0].placeholder, "[a]");
    assert_eq!(gens[0].gen, Generator::FromStart { a: 1 });
    assert_eq!(gens[1].placeholder, "[b]");
    assert_eq!(gens[1].gen, Generator::ToEnd { a: 5, total: 3 });
}

#[test]
fn one_malformed_pair_fails_the_batch() {
    let pairs = vec![pair("[a]", "1.."), pair("[b]", "oops")];
    assert_eq!(parse_sequence(&pairs, 3), Err(DupError::MalformedPattern));
}

#[test]
fn txt_proc_produces_buffered_output() {
    let mut app = AppBody::default();
    app.text_in = String::from("n=[i];");
    app.num = String::from("3");
    app.rep = vec![pair("[i]", "1..")];
    assert_eq!(app.txt_proc(), Ok(()));
    assert_eq!(app.text_out, "n=1;n=2;n=3;");
}

#[test]
fn txt_proc_rejects_bad_count() {
    let mut app = AppBody::default();
    app.text_in = String::from("x");
    app.num = String::from("three");
    app.text_out = String::from("kept");
    assert_eq!(app.txt_proc(), Err(DupError::InvalidCount));
    assert_eq!(app.text_out, "kept");
    let mut app2 = AppBody::default();
    app2.num = String::from("-1");
    assert_eq!(app2.txt_proc(), Err(DupError::InvalidCount));
}

#[test]
fn txt_proc_accepts_plus_sign_count() {
    let mut app = AppBody::default();
    app.text_in = String::from("y");
    app.num = String::from("+2");
    assert_eq!(app.txt_proc(), Ok(()));
    assert_eq!(app.text_out, "yy");
}

#[test]
fn txt_proc_clears_output_on_malformed_pattern() {
    let mut app = AppBody::default();
    app.text_in = String::from("x");
    app.num = String::from("2");
    app.rep = vec![pair("x", "nope")];
    app.text_out = String::from("stale");
    assert_eq!(app.txt_proc(), Err(DupError::MalformedPattern));
    assert_eq!(app.text_out, "");
}

#[test]
fn txt_proc_direct_yields_per_copy_strings() {
    let mut app = AppBody::default();
    app.text_in = String::from("n=[i];");
    app.num = String::from("3");
    app.rep = vec![pair("[i]", "1..")];
    let copies = app.txt_proc_direct().unwrap();
    assert_eq!(copies, vec!["n=1;", "n=2;", "n=3;"]);
    assert_eq!(app.txt_proc(), Ok(()));
    assert_eq!(copies.concat(), app.text_out);
}

#[test]
fn txt_proc_direct_zero_copies() {
    let mut app = AppBody::default();
    app.text_in = String::from("x");
    app.num = String::from("0");
    app.rep = vec![pair("x", "1..")];
    let copies = app.txt_proc_direct().unwrap();
    assert!(copies.is_empty());
    assert_eq!(app.txt_proc(), Ok(()));
    assert_eq!(app.text_out, "");
}

#[test]
fn count_over_u32_range_is_invalid() {
    let mut app = AppBody::default();
    app.num = String::from("4294967296");
    assert_eq!(app.txt_proc(), Err(DupError::InvalidCount));
    app.num = String::from("99999999999999999999");
    assert_eq!(app.txt_proc(), Err(DupError::InvalidCount));
    app.num = String::from("");
    assert_eq!(app.txt_proc(), Err(DupError::InvalidCount));
    app.num = String::from("+");
    assert_eq!(app.txt_proc(), Err(DupError::InvalidCount));
}

use devgpt::ctags::{Ctag, CtagsOutput, RecordKind};
use devgpt::slicing::{Encoding, TokensLen};

const ENC: Encoding = Encoding::Cl100kBase;

fn named(name: &str, kind: &str, line: u32) -> Ctag {
    Ctag {
        record_kind: RecordKind::Tag { kind: kind.to_string() },
        name: Some(name.to_string()),
        path: None,
        pattern: None,
        parser_name: None,
        scope: None,
        scope_kind: None,
        line: Some(line),
    }
}

fn names(c: &CtagsOutput) -> Vec<String> {
    c.0.iter().map(|t| t.name.clone().unwrap()).collect()
}

#[test]
fn two_records_fit_in_one_group() {
    let c = CtagsOutput(vec![named("Foo", "function", 10), named("bar", "struct", 50)]);
    let groups = c.slice_by_costs(&vec![1, 1], 100);
    assert_eq!(groups.len(), 1);
    assert_eq!(names(&groups[0]), vec!["Foo".to_string(), "bar".to_string()]);
}

#[test]
fn two_records_fit_with_real_tokenizer() {
    let c = CtagsOutput(vec![named("Foo", "function", 10), named("bar", "struct", 50)]);
    let groups = c.max_slices(ENC, 10_000).unwrap();
    assert_eq!(groups.len(), 1);
    assert_eq!(names(&groups[0]), vec!["Foo".to_string(), "bar".to_string()]);
}

#[test]
fn greedy_groups_with_oversized_record() {
    let c = CtagsOutput((0..5).map(|i| named(&format!("r{i}"), "function", i)).collect());
    let groups = c.slice_by_costs(&vec![3, 4, 2, 10, 1], 6);
    let got: Vec<Vec<String>> = groups.iter().map(names).collect();
    assert_eq!(
        got,
        vec![
            vec!["r0".to_string()],
            vec!["r1".to_string(), "r2".to_string()],
            vec!["r3".to_string()],
            vec!["r4".to_string()],
        ]
    );
}

#[test]
fn oversized_first_record_stands_alone() {
    let c = CtagsOutput(vec![named("a", "f", 1), named("b", "f", 2), named("c", "f", 3)]);
    let groups = c.slice_by_costs(&vec![9, 1, 1], 5);
    let got: Vec<Vec<String>> = groups.iter().map(names).collect();
    assert_eq!(got, vec![vec!["a".to_string()], vec!["b".to_string(), "c".to_string()]]);
}

#[test]
fn zero_cost_records_share_a_group_at_ceiling_zero() {
    let c = CtagsOutput(vec![named("a", "f", 1), named("b", "f", 2)]);
    let groups = c.slice_by_costs(&vec![0, 0], 0);
    assert_eq!(groups.len(), 1);
}

#[test]
fn empty_catalog_has_no_groups() {
    assert!(CtagsOutput(vec![]).slice_by_costs(&vec![], 10).is_empty());
    assert!(CtagsOutput(vec![]).max_slices(ENC, 10).unwrap().is_empty());
}

#[test]
fn groups_concatenate_to_catalog_with_real_tokenizer() {
    let c = CtagsOutput((0..20).map(|i| named(&format!("symbol_{i}"), "function", i)).collect());
    let one = c.0[0].token_len(ENC).unwrap();
    assert!(one > 0);
    let groups = c.clone().max_slices(ENC, one * 3).unwrap();
    assert!(groups.len() >= 7);
    let flat: Vec<String> = groups.iter().flat_map(names).collect();
    assert_eq!(flat, names(&c));
    for g in &groups {
        assert!(g.token_len(ENC).unwrap() <= one * 3 || g.len() == 1);
    }
}

#[test]
fn max_slice_splits_off_first_group() {
    let c = CtagsOutput((0..4).map(|i| named(&format!("s{i}"), "function", i)).collect());
    let (first, rest) = c.max_slice(ENC, 0).unwrap();
    assert_eq!(names(&first), vec!["s0".to_string()]);
    assert_eq!(names(&rest), vec!["s1".to_string(), "s2".to_string(), "s3".to_string()]);
    let (all, none) = CtagsOutput((0..4).map(|i| named(&format!("s{i}"), "function", i)).collect())
        .max_slice(ENC, 1_000_000).unwrap();
    assert_eq!(all.len(), 4);
    assert!(none.is_empty());
}

#[test]
fn token_len_of_text_and_catalog() {
    assert_eq!(String::new().token_len(ENC), Some(0));
    assert_eq!("hello world".to_string().token_len(ENC), Some(2));
    assert_eq!("hello world".to_string().token_len(Encoding::O200kBase), Some(2));
    assert_eq!("<|endoftext|>".to_string().token_len(ENC), Some(1));
    let c = CtagsOutput(vec![named("a", "f", 1), named("b", "f", 2)]);
    let a = c.0[0].token_len(ENC).unwrap();
    let b = c.0[1].token_len(ENC).unwrap();
    assert_eq!(c.token_len(ENC), Some(a + b));
    assert_eq!(CtagsOutput(vec![]).token_len(ENC), Some(0));
}

#[test]
fn oversized_record_in_the_middle_stands_alone() {
    let long = "x".repeat(400);
    let c = CtagsOutput(vec![named("a", "f", 1), named(&long, "f", 2), named("b", "f", 3)]);
    let small = c.0[0].token_len(ENC).unwrap().max(c.0[2].token_len(ENC).unwrap());
    let big = c.0[1].token_len(ENC).unwrap();
    assert!(big > small * 2);
    let groups = c.max_slices(ENC, small * 2).unwrap();
    let got: Vec<Vec<String>> = groups.iter().map(names).collect();
    assert_eq!(got, vec![vec!["a".to_string()], vec![long.clone()], vec!["b".to_string()]]);
}

#[test]
fn record_token_len_counts_its_serialised_form() {
    let t = named("Foo", "function", 10);
    assert_eq!(t.token_len(ENC), t.to_json().token_len(ENC));
}

#[test]
fn every_stock_encoding_counts() {
    for enc in [
        Encoding::R50kBase,
        Encoding::P50kBase,
        Encoding::P50kEdit,
        Encoding::Cl100kBase,
        Encoding::O200kBase,
        Encoding::O200kHarmony,
    ] {
        assert_eq!("hello world".to_string().token_len(enc), Some(2));
        assert_eq!(String::new().token_len(enc), Some(0));
    }
}

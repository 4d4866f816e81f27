use doki_bot::corpus::{init_markov, init_markov_debug, CorpusEntry, Exhausted, MarkovChain};

fn entry(text: &str, refs: Vec<u64>) -> CorpusEntry {
    CorpusEntry { text: text.to_string(), refs }
}

#[test]
fn same_text_from_two_sources_is_one_entry() {
    let mut c = MarkovChain::new();
    c.learn("alice that movie was really good".to_string(), 1);
    c.learn("alice that movie was really good".to_string(), 2);
    let e = c.export();
    assert_eq!(e.len(), 1);
    assert_eq!(e[0].refs, vec![1, 2]);
}

#[test]
fn same_source_twice_counts_once() {
    let mut c = MarkovChain::new();
    c.learn("a b c d e".to_string(), 9);
    c.learn("a b c d e".to_string(), 9);
    let e = c.export();
    assert_eq!(e.len(), 1);
    assert_eq!(e[0].refs, vec![9]);
}

#[test]
fn distinct_texts_are_distinct_entries() {
    let mut c = MarkovChain::new();
    c.learn("one two three four five".to_string(), 1);
    c.learn("six seven eight nine ten".to_string(), 1);
    assert_eq!(c.len(), 2);
}

#[test]
fn single_entry_with_one_ref_exhausts() {
    let c = init_markov_debug(&vec![entry("alice that movie was really good", vec![1])]);
    assert_eq!(c.generate().err(), Some(Exhausted { draws: 200 }));
}

#[test]
fn empty_corpus_exhausts() {
    let c = MarkovChain::new();
    assert_eq!(c.generate().err(), Some(Exhausted { draws: 200 }));
}

#[test]
fn well_supported_line_is_generated() {
    let mut c = MarkovChain::new();
    c.learn("the quick brown fox jumps over the lazy dog".to_string(), 1);
    c.learn("the quick brown fox jumps over the lazy dog".to_string(), 2);
    let g = c.generate().unwrap();
    assert_eq!(g.text, "the quick brown fox jumps over the lazy dog");
    assert_eq!(g.refs, 2);
    assert!(g.tries >= 1 && g.tries <= 200);
}

#[test]
fn generated_lines_pass_the_filter() {
    let mut c = MarkovChain::new();
    for (k, s) in [
        "we went to the park and then slept well",
        "we went to the beach and then ate fish",
        "they went to the park and then slept well",
    ]
    .iter()
    .enumerate()
    {
        c.learn(s.to_string(), k as u64);
        c.learn(s.to_string(), 100 + k as u64);
    }
    for _ in 0..20 {
        let g = c.generate().unwrap();
        assert!(g.text.split(' ').count() >= 5);
        assert!(g.refs >= 2);
    }
}

#[test]
fn judge_applies_both_thresholds() {
    let c = init_markov_debug(&vec![
        entry("a b c d e f", vec![1, 2]),
        entry("g h i j k l", vec![3]),
    ]);
    let g = c.judge("a b c d e".to_string(), &vec![0], 4).unwrap();
    assert_eq!((g.text.as_str(), g.refs, g.tries), ("a b c d e", 2, 4));
    assert!(c.judge("a b c d".to_string(), &vec![0], 1).is_none());
    assert!(c.judge("a b c d e".to_string(), &vec![0, 1], 1).is_none());
    assert!(c.judge("a b c d e".to_string(), &vec![], 1).is_none());
}

#[test]
fn snapshot_round_trip() {
    let mut c = MarkovChain::new();
    c.learn("one two three four five".to_string(), 1);
    c.learn("one two three four five".to_string(), 2);
    c.learn("six seven eight nine ten".to_string(), 3);
    let snap = c.export();
    let back = init_markov_debug(&snap).export();
    assert_eq!(back.len(), 2);
    for (a, b) in snap.iter().zip(back.iter()) {
        assert_eq!(a.text, b.text);
        assert_eq!(a.refs, b.refs);
    }
}

#[test]
fn import_merges_duplicate_texts() {
    let c = init_markov_debug(&vec![entry("x y z", vec![1]), entry("x y z", vec![1, 2])]);
    let e = c.export();
    assert_eq!(e.len(), 1);
    assert_eq!(e[0].refs, vec![1, 2]);
}

#[test]
fn sentence_file_is_resanitized() {
    let lines = vec![
        "Hello World, this is FUN!".to_string(),
        "hello world this is FUN".to_string(),
        "".to_string(),
    ];
    let e = init_markov(&lines).export();
    assert_eq!(e.len(), 2);
    assert_eq!(e[0].text, "hello world this is FUN");
    assert_eq!(e[0].refs, vec![0, 1]);
    assert_eq!(e[1].text, "");
    assert_eq!(e[1].refs, vec![2]);
}

#[test]
fn large_corpus_still_generates() {
    // 3000 distinct lines of 9 words: the old bound, a sum over all lines,
    // would have passed 65535/200 long before; per-state counts stay small
    // except for the shared state, which still leaves walks enough steps.
    let mut c = MarkovChain::new();
    for k in 0..3000u64 {
        let s = format!("w{k} x{k} y{k} and then we all went home");
        c.learn(s.clone(), 1);
        c.learn(s, 2);
    }
    for _ in 0..5 {
        let g = c.generate().unwrap();
        assert!(g.text.ends_with("and then we all went home"));
        assert_eq!(g.refs, 2);
    }
}

use cantus::data::{ShaderData, Unorm16x2};
use cantus::status::{push_history, HISTORY_SAMPLES};

fn sample(word: u32) -> Unorm16x2 {
    Unorm16x2::read(&[word], 0)
}

fn words(history: &[Unorm16x2; HISTORY_SAMPLES]) -> Vec<u32> {
    let mut out = vec![0u32; HISTORY_SAMPLES];
    for (index, value) in history.iter().enumerate() {
        value.write(&mut out, index);
    }
    out
}

#[test]
fn history_drops_the_oldest_sample() {
    let mut history = [sample(0); HISTORY_SAMPLES];
    for word in 1..=3u32 {
        push_history(&mut history, sample(word));
    }
    let recorded = words(&history);
    assert_eq!(&recorded[HISTORY_SAMPLES - 3..], &[1, 2, 3]);
    assert!(recorded[..HISTORY_SAMPLES - 3].iter().all(|&w| w == 0));
}

#[test]
fn a_full_window_holds_only_new_samples() {
    let mut history = [sample(7); HISTORY_SAMPLES];
    for word in 100..100 + HISTORY_SAMPLES as u32 {
        push_history(&mut history, sample(word));
    }
    let expected: Vec<u32> = (100..100 + HISTORY_SAMPLES as u32).collect();
    assert_eq!(words(&history), expected);
}

use wonder_of_u::library::selection::select_recordings;

fn paths(items: &[&str]) -> Vec<String> {
    items.iter().map(|item| item.to_string()).collect()
}

#[test]
fn naming_no_recording_takes_every_one_the_action_applies_to() {
    let library = paths(&["a.wav", "b.wav", "c.wav"]);
    assert_eq!(select_recordings(&library, &[true, false, true], &[]), vec![0, 2]);
    assert_eq!(select_recordings(&library, &[false, false, false], &[]), Vec::<usize>::new());
}

#[test]
fn named_recordings_are_taken_in_the_order_asked_and_unknown_paths_are_skipped() {
    let library = paths(&["a.wav", "b.wav", "a.wav"]);
    let asked = paths(&["b.wav", "missing.wav", "a.wav"]);
    assert_eq!(select_recordings(&library, &[false, false, false], &asked), vec![1, 0]);
}

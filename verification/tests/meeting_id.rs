use chronicler::audio::meeting_id::{generate, IdSource};
use chronicler::audio::AudioController;

#[test]
fn generated_id_is_filename_safe() {
    let id = generate();
    assert!(!id.is_empty());
    // Must be usable as a Windows filename component: no path separators
    // or characters illegal on NTFS.
    for bad in ['/', '\\', ':', '*', '?', '"', '<', '>', '|'] {
        assert!(!id.contains(bad), "id {id:?} contains illegal char {bad:?}");
    }
}

#[test]
fn successive_ids_are_unique() {
    assert_ne!(generate(), generate());
}

#[test]
fn ids_sort_in_creation_order() {
    // UUID v7 is time-ordered: an id minted later must sort lexicographically
    // at or after one minted earlier, so the audio directory lists by time.
    let earlier = generate();
    let started = std::time::Instant::now();
    while started.elapsed() < std::time::Duration::from_millis(2) {}
    let later = generate();
    assert!(later > earlier, "{later:?} should sort after {earlier:?}");
}

#[test]
fn generated_id_is_hyphenated_v7() {
    let id = generate();
    let chars: Vec<char> = id.chars().collect();
    assert_eq!(chars.len(), 36);
    for (i, c) in chars.iter().enumerate() {
        if [8, 13, 18, 23].contains(&i) {
            assert_eq!(*c, '-');
        } else {
            assert!(c.is_ascii_hexdigit() && !c.is_ascii_uppercase(), "{id}");
        }
    }
    assert_eq!(chars[14], '7');
    assert!(['8', '9', 'a', 'b'].contains(&chars[19]));
}

#[test]
fn controller_names_its_wav_after_the_meeting_id() {
    let mut ids = IdSource::new();
    let c = AudioController::new(&mut ids);
    let id = c.meeting_id().to_string();
    assert_eq!(id.len(), 36);
    assert_eq!(c.wav_file_name(), format!("{id}.wav"));
    assert_eq!(c.stop(), Ok(()));
}

#[test]
fn id_source_hands_out_strictly_increasing_ids() {
    let mut ids = IdSource::new();
    let mut previous = ids.next();
    for _ in 0..1000 {
        let next = ids.next();
        assert!(next > previous, "{next} should sort after {previous}");
        previous = next;
    }
}

use engine::speakers::{SpeakerChange, SpeakerVoiceMapper, VadBasedSpeakerIdentifier};

#[test]
fn test_first_boundary() {
    let mut identifier = VadBasedSpeakerIdentifier::new(1000, 5000);
    let result = identifier.identify_speaker(0);
    assert_eq!(result.speaker_id, "speaker_1");
    assert!(result.is_new_speaker);
    assert_eq!(result.change, SpeakerChange::First);
}

#[test]
fn test_short_interval_interruption() {
    let mut identifier = VadBasedSpeakerIdentifier::new(1000, 5000);
    let result1 = identifier.identify_speaker(0);
    assert_eq!(result1.speaker_id, "speaker_1");
    assert!(result1.is_new_speaker);
    let result2 = identifier.identify_speaker(500);
    assert_eq!(result2.speaker_id, "speaker_2");
    assert!(result2.is_new_speaker);
    assert_eq!(result2.change, SpeakerChange::Interruption);
}

#[test]
fn test_long_interval_new_speaker() {
    let mut identifier = VadBasedSpeakerIdentifier::new(1000, 5000);
    let result1 = identifier.identify_speaker(0);
    assert_eq!(result1.speaker_id, "speaker_1");
    let result2 = identifier.identify_speaker(6000);
    assert_eq!(result2.speaker_id, "speaker_2");
    assert!(result2.is_new_speaker);
    assert_eq!(result2.change, SpeakerChange::LongPause);
}

#[test]
fn test_medium_interval_same_speaker() {
    let mut identifier = VadBasedSpeakerIdentifier::new(1000, 5000);
    let result1 = identifier.identify_speaker(0);
    let speaker1_id = result1.speaker_id.clone();
    let result2 = identifier.identify_speaker(3000);
    assert_eq!(result2.speaker_id, speaker1_id);
    assert!(!result2.is_new_speaker);
    assert_eq!(result2.change, SpeakerChange::Continuation);
}

#[test]
fn vad_based_test_reset() {
    let mut identifier = VadBasedSpeakerIdentifier::new(1000, 5000);
    identifier.identify_speaker(0);
    identifier.identify_speaker(3000);
    identifier.reset();
    let result = identifier.identify_speaker(5000);
    assert_eq!(result.speaker_id, "speaker_1");
    assert!(result.is_new_speaker);
}

#[test]
fn speaker_numbers_keep_counting() {
    let mut identifier = VadBasedSpeakerIdentifier::new(1000, 5000);
    let mut ids = vec![];
    for i in 0..12u64 {
        ids.push(identifier.identify_speaker(i * 100).speaker_id);
    }
    assert_eq!(ids[9], "speaker_10");
    assert_eq!(ids[11], "speaker_12");
    // A gap at the edge of the intervals keeps the speaker.
    assert_eq!(identifier.identify_speaker(2100).speaker_id, "speaker_12");
    assert_eq!(identifier.identify_speaker(7100).speaker_id, "speaker_12");
    assert_eq!(identifier.identify_speaker(12101).speaker_id, "speaker_13");
}

fn voices(names: &[&str]) -> Vec<String> {
    names.iter().map(|s| s.to_string()).collect()
}

#[test]
fn test_assign_voice() {
    let mut mapper = SpeakerVoiceMapper::new(voices(&["voice1", "voice2", "voice3"]));
    assert_eq!(mapper.assign_voice("user1"), "voice1");
    assert_eq!(mapper.assign_voice("user2"), "voice2");
    assert_eq!(mapper.get_voice("user1"), Some("voice1".to_string()));
}

#[test]
fn test_round_robin() {
    let mut mapper = SpeakerVoiceMapper::new(voices(&["voice1", "voice2"]));
    assert_eq!(mapper.assign_voice("user1"), "voice1");
    assert_eq!(mapper.assign_voice("user2"), "voice2");
    assert_eq!(mapper.assign_voice("user3"), "voice1");
    assert_eq!(mapper.assign_voice("user4"), "voice2");
}

#[test]
fn test_get_or_assign() {
    let mut mapper = SpeakerVoiceMapper::new(voices(&["voice1"]));
    assert_eq!(mapper.get_or_assign_voice("user1"), "voice1");
    assert_eq!(mapper.get_or_assign_voice("user1"), "voice1");
}

#[test]
fn test_clear() {
    let mut mapper = SpeakerVoiceMapper::new(voices(&["voice1"]));
    mapper.assign_voice("user1");
    assert_eq!(mapper.count(), 1);
    mapper.clear();
    assert_eq!(mapper.count(), 0);
}

#[test]
fn default_speakers_get_voices_by_name() {
    let mut mapper = SpeakerVoiceMapper::new(voices(&["zh_CN-xiaoyan-medium", "zh_CN-huayan-medium", "en_US-lessac-medium"]));
    assert_eq!(mapper.get_or_assign_voice("default_female"), "zh_CN-xiaoyan-medium");
    assert_eq!(mapper.get_or_assign_voice("default_male"), "zh_CN-huayan-medium");
    assert_eq!(mapper.get_or_assign_voice("default_speaker"), "zh_CN-huayan-medium");
    // Default speakers leave the rotation alone.
    assert_eq!(mapper.get_or_assign_voice("alice"), "zh_CN-xiaoyan-medium");
    assert_eq!(mapper.count(), 4);

    // "female" contains "male": a female voice can be picked as the male default.
    let mut m2 = SpeakerVoiceMapper::new(voices(&["Voice-Female", "x"]));
    assert_eq!(m2.get_or_assign_voice("default_male"), "Voice-Female");
    // Without a name to go by: the second voice for women, the first for men.
    let mut m3 = SpeakerVoiceMapper::new(voices(&["a", "b"]));
    assert_eq!(m3.get_or_assign_voice("default_female"), "b");
    assert_eq!(m3.get_or_assign_voice("default_male"), "a");
    m3.set_voice("default_male", "z".to_string());
    assert_eq!(m3.get_or_assign_voice("default_male"), "z");
    assert_eq!(m3.count(), 2);
}

use engine::speakers::{default_speaker_for_gender, ReferenceSegments};

#[test]
fn gender_picks_a_default_speaker() {
    assert_eq!(default_speaker_for_gender(Some("Male")), "default_male");
    assert_eq!(default_speaker_for_gender(Some("m")), "default_male");
    assert_eq!(default_speaker_for_gender(Some("FEMALE")), "default_female");
    assert_eq!(default_speaker_for_gender(Some("f")), "default_female");
    assert_eq!(default_speaker_for_gender(Some("unknown")), "default_speaker");
    assert_eq!(default_speaker_for_gender(None), "default_speaker");
}

#[test]
fn reference_audio_grows_then_merges() {
    let mut r: ReferenceSegments<f32> = ReferenceSegments::new();
    // Short of both limits: the segment itself, no features.
    let (reference, embed) = r.add_segment(vec![1.0, 2.0], 6, 4);
    assert_eq!(reference, vec![1.0, 2.0]);
    assert_eq!(embed, None);
    // Enough for features: everything so far.
    let (reference, embed) = r.add_segment(vec![3.0, 4.0], 6, 4);
    assert_eq!(reference, vec![1.0, 2.0, 3.0, 4.0]);
    assert_eq!(embed, Some(vec![1.0, 2.0, 3.0, 4.0]));
    // Enough to merge: one segment holds it all from now on.
    let (reference, embed) = r.add_segment(vec![5.0, 6.0], 6, 4);
    assert_eq!(reference, vec![1.0, 2.0, 3.0, 4.0, 5.0, 6.0]);
    assert_eq!(embed, Some(vec![1.0, 2.0, 3.0, 4.0, 5.0, 6.0]));
    let (reference, _) = r.add_segment(vec![7.0], 100, 100);
    assert_eq!(reference, vec![7.0]);
    r.clear();
    let (reference, embed) = r.add_segment(vec![8.0], 6, 4);
    assert_eq!((reference, embed), (vec![8.0], None));
}

#[test]
fn male_search_skips_female_and_woman_names() {
    let mut m = SpeakerVoiceMapper::new(vec!["en_US-female".to_string(), "en_US-male".to_string()]);
    assert_eq!(m.get_or_assign_voice("default_male"), "en_US-male");
    assert_eq!(m.get_voice("default_male"), Some("en_US-male".to_string()));
    assert_eq!(m.get_or_assign_voice("default_speaker"), "en_US-male");
    assert_eq!(m.get_or_assign_voice("default_female"), "en_US-female");
    let mut w = SpeakerVoiceMapper::new(vec!["woman-a".to_string(), "man-b".to_string()]);
    assert_eq!(w.get_or_assign_voice("default_male"), "man-b");
    let mut only_female = SpeakerVoiceMapper::new(vec!["en_US-female".to_string(), "other".to_string()]);
    assert_eq!(only_female.get_or_assign_voice("default_male"), "en_US-female");
}
